//! Run-length wire form of an ascending sequence of identifiers.
//!
//! A token that is zero or positive is the distance from the previous
//! identifier (from zero for the first one). A negative token `-n` stands for
//! `n` identifiers that each follow the previous one directly.
use vstd::prelude::*;

verus! {

/// The identifiers never decrease from left to right.
pub open spec fn ascending(ids: Seq<u32>) -> bool {
    forall|i: int, j: int| 0 <= i <= j < ids.len() ==> ids[i] <= ids[j]
}

/// The identifier that distances are measured from: the previous one, or zero
/// before the first.
pub open spec fn base(prev: Option<u32>) -> int {
    match prev {
        Some(p) => p as int,
        None => 0,
    }
}

/// The token that closes a pending run of `streak` consecutive identifiers.
pub open spec fn flush(streak: int) -> Seq<i64> {
    if streak != 0 {
        seq![(-streak) as i64]
    } else {
        Seq::empty()
    }
}

/// The tokens for the identifiers that are left, with `prev` the identifier
/// before them and `streak` consecutive steps pending.
pub open spec fn encode_rest(ids: Seq<u32>, prev: Option<u32>, streak: int) -> Seq<i64>
    decreases ids.len(),
{
    if ids.len() == 0 {
        flush(streak)
    } else {
        let id = ids[0];
        let diff = id - base(prev);
        if prev is Some && diff == 1 {
            encode_rest(ids.drop_first(), Some(id), streak + 1)
        } else {
            flush(streak) + seq![diff as i64] + encode_rest(ids.drop_first(), Some(id), 0)
        }
    }
}

/// The tokens that stand for `ids`.
pub open spec fn encode_spec(ids: Seq<u32>) -> Seq<i64> {
    encode_rest(ids, None, 0)
}

/// The identifiers `prev + 1, .., prev + n`.
pub open spec fn run(prev: int, n: int) -> Seq<u32> {
    Seq::new(n as nat, |k: int| (prev + 1 + k) as u32)
}

/// `head` followed by what `tail` holds, where there is a tail.
pub open spec fn followed_by(head: Seq<u32>, tail: Option<Seq<u32>>) -> Option<Seq<u32>> {
    match tail {
        Some(rest) => Some(head + rest),
        None => None,
    }
}

/// The identifiers that `tokens` stand for after the identifier `prev`, or
/// `None` where one of them would not fit in 32 bits.
pub open spec fn decode_rest(tokens: Seq<i64>, prev: int) -> Option<Seq<u32>>
    decreases tokens.len(),
{
    if tokens.len() == 0 {
        Some(Seq::empty())
    } else {
        let x = tokens[0];
        if x < 0 {
            if prev - x > u32::MAX {
                None
            } else {
                followed_by(run(prev, -x), decode_rest(tokens.drop_first(), prev - x))
            }
        } else {
            if prev + x > u32::MAX {
                None
            } else {
                followed_by(seq![(prev + x) as u32], decode_rest(tokens.drop_first(), prev + x))
            }
        }
    }
}

/// The identifiers that `tokens` stand for.
pub open spec fn decode_spec(tokens: Seq<i64>) -> Option<Seq<u32>> {
    decode_rest(tokens, 0)
}

/// Writes ascending identifiers as run-length tokens.
pub fn encode(ids: &[u32]) -> (tokens: Vec<i64>)
    requires
        ascending(ids@),
    ensures
        tokens@ == encode_spec(ids@),
{
    let mut tokens: Vec<i64> = Vec::new();
    let mut prev: Option<u32> = None;
    let mut streak: i64 = 0;
    let mut i: usize = 0;
    proof {
        assert(ids@.skip(0) =~= ids@);
    }
    while i < ids.len()
        invariant
            i <= ids.len(),
            ascending(ids@),
            (i == 0) == (prev is None),
            prev matches Some(p) ==> p == ids[i - 1],
            0 <= streak <= base(prev),
            encode_spec(ids@) == tokens@ + encode_rest(ids@.skip(i as int), prev, streak as int),
        decreases ids.len() - i,
    {
        let id: u32 = ids[i];
        let ghost rest = ids@.skip(i as int);
        proof {
            assert(rest[0] == id);
            assert(rest.drop_first() =~= ids@.skip(i + 1));
        }
        let before: u32 = match prev {
            Some(p) => p,
            None => 0,
        };
        let diff: u32 = id - before;
        let ghost pending = streak as int;
        let ghost emitted = tokens@;
        if prev.is_some() && diff == 1 {
            streak = streak + 1;
        } else {
            if streak != 0 {
                tokens.push(-streak);
                streak = 0;
            }
            tokens.push(diff as i64);
            proof {
                let tail = encode_rest(ids@.skip(i + 1), Some(id), 0);
                assert(tokens@ + tail =~= emitted + (flush(pending) + seq![diff as i64] + tail));
            }
        }
        prev = Some(id);
        i = i + 1;
    }
    proof {
        assert(ids@.skip(i as int) =~= Seq::<u32>::empty());
    }
    if streak != 0 {
        tokens.push(-streak);
    }
    proof {
        assert(tokens@ =~= encode_spec(ids@));
    }
    tokens
}

/// Reads run-length tokens back into identifiers. `None` where an identifier
/// would pass the largest 32-bit value.
pub fn decode(tokens: &[i64]) -> (ids: Option<Vec<u32>>)
    ensures
        decode_spec(tokens@) == match ids {
            Some(v) => Some(v@),
            None => None,
        },
        ids matches Some(v) ==> ascending(v@),
{
    let mut set: Vec<u32> = Vec::new();
    let mut prev: u32 = 0;
    let mut i: usize = 0;
    proof {
        assert(tokens@.skip(0) =~= tokens@);
        assert(set@ + Seq::<u32>::empty() =~= set@);
    }
    while i < tokens.len()
        invariant
            i <= tokens.len(),
            decode_spec(tokens@) == followed_by(set@, decode_rest(tokens@.skip(i as int), prev as int)),
            ascending(set@),
            forall|k: int| 0 <= k < set@.len() ==> set@[k] <= prev,
        decreases tokens.len() - i,
    {
        let x: i64 = tokens[i];
        let ghost rest = tokens@.skip(i as int);
        let ghost done = set@;
        let ghost start = prev as int;
        proof {
            assert(rest[0] == x);
            assert(rest.drop_first() =~= tokens@.skip(i + 1));
        }
        if x < 0 {
            if x < prev as i64 - 0xffff_ffff {
                return None;
            }
            let n: u32 = (-x) as u32;
            let mut k: u32 = 0;
            while k < n
                invariant
                    k <= n,
                    start + n <= u32::MAX,
                    prev == start + k,
                    set@ == done + run(start, k as int),
                    ascending(set@),
                    forall|m: int| 0 <= m < set@.len() ==> set@[m] <= prev,
                decreases n - k,
            {
                prev = prev + 1;
                set.push(prev);
                k = k + 1;
                proof {
                    assert(set@ =~= done + run(start, k as int));
                }
            }
            proof {
                let tail = decode_rest(tokens@.skip(i + 1), prev as int);
                assert(followed_by(done, followed_by(run(start, n as int), tail)) == followed_by(
                    set@,
                    tail,
                )) by {
                    if let Some(t) = tail {
                        assert(done + (run(start, n as int) + t) =~= set@ + t);
                    }
                }
            }
        } else {
            if x > (0xffff_ffff - prev) as i64 {
                return None;
            }
            prev = prev + x as u32;
            set.push(prev);
            proof {
                let tail = decode_rest(tokens@.skip(i + 1), prev as int);
                assert(followed_by(done, followed_by(seq![prev], tail)) == followed_by(
                    set@,
                    tail,
                )) by {
                    if let Some(t) = tail {
                        assert(done + (seq![prev] + t) =~= set@ + t);
                    }
                }
            }
        }
        i = i + 1;
    }
    proof {
        assert(tokens@.skip(i as int) =~= Seq::<i64>::empty());
        assert(set@ + Seq::<u32>::empty() =~= set@);
    }
    Some(set)
}

/// A pending run, once closed, decodes to its identifiers followed by what
/// the remaining tokens decode to.
proof fn lemma_decode_flush(streak: int, tokens: Seq<i64>, prev: int)
    requires
        0 <= streak,
        0 <= prev,
        prev + streak <= u32::MAX,
    ensures
        decode_rest(flush(streak) + tokens, prev) == followed_by(
            run(prev, streak),
            decode_rest(tokens, prev + streak),
        ),
{
    let tail = decode_rest(tokens, prev + streak);
    if streak == 0 {
        assert(flush(streak) + tokens =~= tokens);
        if let Some(t) = tail {
            assert(run(prev, 0) + t =~= t);
        }
    } else {
        let all = flush(streak) + tokens;
        assert(all[0] == -streak);
        assert(all.drop_first() =~= tokens);
    }
}

/// Decoding inverts encoding, from any state that the encoder can be in.
proof fn lemma_round_trip_rest(ids: Seq<u32>, prev: Option<u32>, streak: int)
    requires
        ascending(ids),
        0 <= streak <= base(prev),
        ids.len() > 0 ==> base(prev) <= ids[0],
    ensures
        decode_rest(encode_rest(ids, prev, streak), base(prev) - streak) == Some(
            run(base(prev) - streak, streak) + ids,
        ),
    decreases ids.len(),
{
    let start = base(prev) - streak;
    if ids.len() == 0 {
        lemma_decode_flush(streak, Seq::empty(), start);
        assert(flush(streak) + Seq::<i64>::empty() =~= flush(streak));
        assert(run(start, streak) + Seq::<u32>::empty() =~= run(start, streak) + ids);
    } else {
        let id = ids[0];
        let tail = ids.drop_first();
        let diff = id - base(prev);
        assert(ascending(tail)) by {
            assert forall|i: int, j: int| 0 <= i <= j < tail.len() implies tail[i] <= tail[j] by {
                assert(tail[i] == ids[i + 1] && tail[j] == ids[j + 1]);
            }
        }
        assert(tail.len() > 0 ==> id <= tail[0]) by {
            if tail.len() > 0 {
                assert(tail[0] == ids[1]);
            }
        }
        if prev is Some && diff == 1 {
            lemma_round_trip_rest(tail, Some(id), streak + 1);
            assert(run(start, streak + 1) + tail =~= run(start, streak) + ids);
        } else {
            lemma_round_trip_rest(tail, Some(id), 0);
            let after = encode_rest(tail, Some(id), 0);
            let step = seq![diff as i64] + after;
            assert(flush(streak) + seq![diff as i64] + after =~= flush(streak) + step);
            lemma_decode_flush(streak, step, start);
            assert(step[0] == diff);
            assert(step.drop_first() =~= after);
            assert(run(id as int, 0) + tail =~= tail);
            assert(run(start, streak) + (seq![id] + tail) =~= run(start, streak) + ids);
        }
    }
}

/// Decoding what `encode_spec` gives for ascending identifiers returns those
/// identifiers, for the empty sequence and for repeated identifiers too.
pub proof fn lemma_round_trip(ids: Seq<u32>)
    requires
        ascending(ids),
    ensures
        decode_spec(encode_spec(ids)) == Some(ids),
{
    lemma_round_trip_rest(ids, None, 0);
    assert(run(0, 0) + ids =~= ids);
}

} // verus!
