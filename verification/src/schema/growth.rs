//! Records and stores that grow: what a compact record says, and whether it
//! is equal to a record that was read, stays as it is whatever is stored
//! later.
use crate::intern::EqWith;
use crate::schema::meaning::{
    disruption_at, impacted_object_at, line_at, meant, period_at, text_at, uuid_at,
};
use crate::schema::optimized::{
    Data, DataError, DataSuccess, Disruption, ImpactedObject, Interners, Line, LineHeader, Object,
};
use crate::schema::source;
use crate::set::below;
use vstd::prelude::*;

verus! {

/// Handles that name the same under two readings mean the same under both.
pub proof fn lemma_meant_same<K>(ids: Seq<u32>, one: spec_fn(u32) -> K, other: spec_fn(u32) -> K)
    requires
        forall|k: int| 0 <= k < ids.len() ==> one(#[trigger] ids[k]) == other(ids[k]),
    ensures
        meant(ids, one) == meant(ids, other),
{
    assert(ids.map_values(one) =~= ids.map_values(other));
}

impl Object {
    /// An object says in stores that have grown what it said before.
    pub proof fn lemma_says_later(&self, earlier: &Interners, later: &Interners)
        requires
            self.fits(earlier),
            later.extends(earlier),
        ensures
            self.fits(later),
            self.says(later) == self.says(earlier),
    {
    }
}

impl ImpactedObject {
    /// An impacted object says in stores that have grown what it said
    /// before.
    pub proof fn lemma_says_later(&self, earlier: &Interners, later: &Interners)
        requires
            earlier.wf(),
            self.fits(earlier),
            later.extends(earlier),
        ensures
            self.fits(later),
            self.says(later) == self.says(earlier),
    {
        reveal(Interners::closed);
        earlier.object@[self.object@ as int].lemma_says_later(earlier, later);
        let ids = earlier.uuid_set@[self.disruption_ids@ as int]@;
        assert(below(ids, earlier.uuid@.len()));
        lemma_meant_same(ids, uuid_at(later), uuid_at(earlier));
    }

    /// An impacted object is equal in stores that have grown to what it was
    /// equal to before.
    pub proof fn lemma_equal_later(
        &self,
        other: &source::ImpactedObject,
        earlier: &Interners,
        later: &Interners,
    )
        requires
            earlier.wf(),
            self.fits(earlier),
            later.extends(earlier),
        ensures
            self.eq_with_spec(other, later) == self.eq_with_spec(other, earlier),
    {
        self.lemma_says_later(earlier, later);
        self.lemma_equal_means_same(other, earlier);
        self.lemma_equal_means_same(other, later);
    }
}

impl LineHeader {
    /// A header says in stores that have grown what it said before.
    pub proof fn lemma_says_later(&self, earlier: &Interners, later: &Interners)
        requires
            self.fits(earlier),
            later.extends(earlier),
        ensures
            self.fits(later),
            self.says(later) == self.says(earlier),
    {
    }
}

impl Line {
    /// A line says in stores that have grown what it said before.
    pub proof fn lemma_says_later(&self, earlier: &Interners, later: &Interners)
        requires
            earlier.wf(),
            self.fits(earlier),
            later.extends(earlier),
        ensures
            self.fits(later),
            self.says(later) == self.says(earlier),
    {
        reveal(Interners::closed);
        earlier.line_header@[self.header@ as int].lemma_says_later(earlier, later);
        let ids = self.impacted_objects@;
        assert forall|k: int| 0 <= k < ids.len() implies impacted_object_at(later)(#[trigger] ids[k])
            == impacted_object_at(earlier)(ids[k]) by {
            earlier.impacted_object@[ids[k] as int].lemma_says_later(earlier, later);
        }
        lemma_meant_same(ids, impacted_object_at(later), impacted_object_at(earlier));
    }

    /// A line is equal in stores that have grown to what it was equal to
    /// before.
    pub proof fn lemma_equal_later(&self, other: &source::Line, earlier: &Interners, later: &Interners)
        requires
            earlier.wf(),
            self.fits(earlier),
            later.extends(earlier),
        ensures
            self.eq_with_spec(other, later) == self.eq_with_spec(other, earlier),
    {
        self.lemma_says_later(earlier, later);
        self.lemma_equal_means_same(other, earlier);
        self.lemma_equal_means_same(other, later);
    }
}

impl Disruption {
    /// A disruption says in stores that have grown what it said before.
    pub proof fn lemma_says_later(&self, earlier: &Interners, later: &Interners)
        requires
            self.fits(earlier),
            later.extends(earlier),
        ensures
            self.fits(later),
            self.says(later) == self.says(earlier),
    {
        lemma_meant_same(self.application_periods@, period_at(later), period_at(earlier));
        if let Some(tags) = self.tags {
            lemma_meant_same(tags@, text_at(later), text_at(earlier));
        }
    }

    /// A disruption is equal in stores that have grown to what it was equal
    /// to before.
    pub proof fn lemma_equal_later(
        &self,
        other: &source::Disruption,
        earlier: &Interners,
        later: &Interners,
    )
        requires
            self.fits(earlier),
            later.extends(earlier),
        ensures
            self.eq_with_spec(other, later) == self.eq_with_spec(other, earlier),
    {
        self.lemma_says_later(earlier, later);
        self.lemma_equal_means_same(other, earlier);
        self.lemma_equal_means_same(other, later);
    }
}

impl DataSuccess {
    /// A feed says in stores that have grown what it said before.
    pub proof fn lemma_says_later(&self, earlier: &Interners, later: &Interners)
        requires
            earlier.wf(),
            self.fits(earlier),
            later.extends(earlier),
        ensures
            self.fits(later),
            self.says(later) == self.says(earlier),
    {
        reveal(Interners::closed);
        let disruptions = earlier.disruption_set@[self.disruptions@ as int]@;
        assert(below(disruptions, earlier.disruption@.len()));
        assert forall|k: int| 0 <= k < disruptions.len() implies disruption_at(later)(
            #[trigger] disruptions[k],
        ) == disruption_at(earlier)(disruptions[k]) by {
            earlier.disruption@[disruptions[k] as int].lemma_says_later(earlier, later);
        }
        lemma_meant_same(disruptions, disruption_at(later), disruption_at(earlier));
        let lines = earlier.line_set@[self.lines@ as int]@;
        assert(below(lines, earlier.line@.len()));
        assert forall|k: int| 0 <= k < lines.len() implies line_at(later)(#[trigger] lines[k])
            == line_at(earlier)(lines[k]) by {
            earlier.line@[lines[k] as int].lemma_says_later(earlier, later);
        }
        lemma_meant_same(lines, line_at(later), line_at(earlier));
    }
}

impl DataError {
    /// A feed says in stores that have grown what it said before.
    pub proof fn lemma_says_later(&self, earlier: &Interners, later: &Interners)
        requires
            self.fits(earlier),
            later.extends(earlier),
        ensures
            self.fits(later),
            self.says(later) == self.says(earlier),
    {
    }
}

impl Data {
    /// A feed says in stores that have grown what it said before.
    pub proof fn lemma_says_later(&self, earlier: &Interners, later: &Interners)
        requires
            earlier.wf(),
            self.fits(earlier),
            later.extends(earlier),
        ensures
            self.fits(later),
            self.says(later) == self.says(earlier),
    {
        match self {
            Data::Success(data) => data.lemma_says_later(earlier, later),
            Data::Error(data) => data.lemma_says_later(earlier, later),
        }
    }

    /// A feed is equal in stores that have grown to what it was equal to
    /// before: what is stored later changes no comparison.
    pub proof fn lemma_equal_later(&self, other: &source::Data, earlier: &Interners, later: &Interners)
        requires
            earlier.wf(),
            self.fits(earlier),
            later.extends(earlier),
        ensures
            self.fits(later),
            self.eq_with_spec(other, later) == self.eq_with_spec(other, earlier),
    {
        self.lemma_says_later(earlier, later);
        self.lemma_equal_means_same(other, earlier);
        self.lemma_equal_means_same(other, later);
    }
}

} // verus!
