//! Compile-time carrier of the in-scope milestoning dates: the business
//! and processing date expressions that flow from a milestoned source into
//! the milestoned property calls made on it.

use vstd::prelude::*;

use crate::expr::{values_view, ValueSpec, ValueSpecView};
use crate::milestoning::MilestoningStereotype;

verus! {

/// Dates in scope for a milestoned value: a business date (business- and
/// bitemporal sources) and a processing date (processing- and bitemporal
/// sources).
#[derive(Debug)]
pub struct MilestoningDates {
    pub business_date: Option<ValueSpec>,
    pub processing_date: Option<ValueSpec>,
}

/// View of an optional expression.
pub open spec fn opt_view(v: Option<ValueSpec>) -> Option<ValueSpecView> {
    match v {
        Some(x) => Some(x@),
        None => None,
    }
}

impl View for MilestoningDates {
    /// `(business date, processing date)`.
    type V = (Option<ValueSpecView>, Option<ValueSpecView>);

    open spec fn view(&self) -> (Option<ValueSpecView>, Option<ValueSpecView>) {
        (opt_view(self.business_date), opt_view(self.processing_date))
    }
}

/// The carrier built from a source of stereotype `s` and its positional date
/// arguments: one argument for a single-temporal source, two
/// (`[processing, business]`) for a bitemporal one; any other arity is no
/// carrier.
pub open spec fn dates_from(s: MilestoningStereotype, args: Seq<ValueSpecView>) -> Option<
    (Option<ValueSpecView>, Option<ValueSpecView>),
> {
    match s {
        MilestoningStereotype::BusinessTemporal => if args.len() == 1 {
            Some((Some(args[0]), None))
        } else {
            None
        },
        MilestoningStereotype::ProcessingTemporal => if args.len() == 1 {
            Some((None, Some(args[0])))
        } else {
            None
        },
        MilestoningStereotype::Bitemporal => if args.len() == 2 {
            Some((Some(args[1]), Some(args[0])))
        } else {
            None
        },
    }
}

/// The date arguments to inject into a call on a class of stereotype
/// `target`: `[business]`, `[processing]`, or `[processing, business]`;
/// none when a needed date is missing.
pub open spec fn dates_for(
    d: (Option<ValueSpecView>, Option<ValueSpecView>),
    target: MilestoningStereotype,
) -> Option<Seq<ValueSpecView>> {
    match target {
        MilestoningStereotype::BusinessTemporal => match d.0 {
            Some(b) => Some(seq![b]),
            None => None,
        },
        MilestoningStereotype::ProcessingTemporal => match d.1 {
            Some(p) => Some(seq![p]),
            None => None,
        },
        MilestoningStereotype::Bitemporal => match (d.1, d.0) {
            (Some(p), Some(b)) => Some(seq![p, b]),
            _ => None,
        },
    }
}

impl MilestoningDates {
    /// Builds the carrier for a source of the given stereotype from its
    /// positional date arguments; `None` when the arity does not match the
    /// stereotype (one date, or two for bitemporal).
    pub fn from_source(stereotype: MilestoningStereotype, args: &[ValueSpec]) -> (r: Option<
        MilestoningDates,
    >)
        ensures
            match r {
                Some(d) => dates_from(stereotype, values_view(args@)) == Some(d@),
                None => dates_from(stereotype, values_view(args@)) is None,
            },
    {
        let n = args.len();
        match stereotype {
            MilestoningStereotype::BusinessTemporal => {
                if n == 1 {
                    Some(
                        MilestoningDates {
                            business_date: Some(args[0].duplicate()),
                            processing_date: None,
                        },
                    )
                } else {
                    None
                }
            },
            MilestoningStereotype::ProcessingTemporal => {
                if n == 1 {
                    Some(
                        MilestoningDates {
                            business_date: None,
                            processing_date: Some(args[0].duplicate()),
                        },
                    )
                } else {
                    None
                }
            },
            MilestoningStereotype::Bitemporal => {
                if n == 2 {
                    Some(
                        MilestoningDates {
                            processing_date: Some(args[0].duplicate()),
                            business_date: Some(args[1].duplicate()),
                        },
                    )
                } else {
                    None
                }
            },
        }
    }

    /// The date arguments to inject into a milestoned property call whose
    /// target class carries `target`; `None` when this carrier lacks a date
    /// the target needs.
    pub fn for_target_stereotype(&self, target: MilestoningStereotype) -> (r: Option<
        Vec<ValueSpec>,
    >)
        ensures
            match r {
                Some(v) => dates_for(self@, target) == Some(values_view(v@)),
                None => dates_for(self@, target) is None,
            },
    {
        match target {
            MilestoningStereotype::BusinessTemporal => match &self.business_date {
                Some(d) => {
                    let v = vec![d.duplicate()];
                    assert(values_view(v@) =~= seq![d@]);
                    Some(v)
                },
                None => None,
            },
            MilestoningStereotype::ProcessingTemporal => match &self.processing_date {
                Some(d) => {
                    let v = vec![d.duplicate()];
                    assert(values_view(v@) =~= seq![d@]);
                    Some(v)
                },
                None => None,
            },
            MilestoningStereotype::Bitemporal => match (&self.processing_date, &self.business_date) {
                (Some(pd), Some(bd)) => {
                    let v = vec![pd.duplicate(), bd.duplicate()];
                    assert(values_view(v@) =~= seq![pd@, bd@]);
                    Some(v)
                },
                _ => None,
            },
        }
    }
}

/// A carrier built from a source's date arguments hands the same arguments,
/// in the same order, to a target of the same stereotype.
pub proof fn lemma_dates_round_trip(s: MilestoningStereotype, args: Seq<ValueSpecView>)
    requires
        dates_from(s, args) is Some,
    ensures
        dates_for(dates_from(s, args)->0, s) == Some(args),
{
    match s {
        MilestoningStereotype::Bitemporal => {
            assert(seq![args[0], args[1]] =~= args);
        },
        _ => {
            assert(seq![args[0]] =~= args);
        },
    }
}

/// A bitemporal carrier narrows to a single-temporal target by keeping
/// just that target's date.
pub proof fn lemma_bitemporal_narrows(args: Seq<ValueSpecView>)
    requires
        args.len() == 2,
    ensures
        dates_for(dates_from(MilestoningStereotype::Bitemporal, args)->0,
            MilestoningStereotype::BusinessTemporal) == Some(seq![args[1]]),
        dates_for(dates_from(MilestoningStereotype::Bitemporal, args)->0,
            MilestoningStereotype::ProcessingTemporal) == Some(seq![args[0]]),
{
}

/// A single-temporal carrier cannot serve a target of the other single
/// stereotype, nor a bitemporal one.
pub proof fn lemma_single_temporal_mismatch(args: Seq<ValueSpecView>)
    requires
        args.len() == 1,
    ensures
        dates_for(dates_from(MilestoningStereotype::BusinessTemporal, args)->0,
            MilestoningStereotype::ProcessingTemporal) is None,
        dates_for(dates_from(MilestoningStereotype::BusinessTemporal, args)->0,
            MilestoningStereotype::Bitemporal) is None,
        dates_for(dates_from(MilestoningStereotype::ProcessingTemporal, args)->0,
            MilestoningStereotype::BusinessTemporal) is None,
        dates_for(dates_from(MilestoningStereotype::ProcessingTemporal, args)->0,
            MilestoningStereotype::Bitemporal) is None,
{
}


impl MilestoningDates {
    /// A copy with the same view.
    pub fn duplicate(&self) -> (r: MilestoningDates)
        ensures
            r@ == self@,
    {
        let b = match &self.business_date {
            Some(x) => Some(x.duplicate()),
            None => None,
        };
        let p = match &self.processing_date {
            Some(x) => Some(x.duplicate()),
            None => None,
        };
        MilestoningDates { business_date: b, processing_date: p }
    }
}

} // verus!
