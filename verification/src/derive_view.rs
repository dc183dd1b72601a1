//! Display-oriented facts derived from a resource: readiness fraction,
//! restart summary, coarse phase, and age. Every helper is total: a
//! missing status block or container list falls back to an explicit
//! default instead of failing.

use vstd::prelude::*;

use crate::model::{ContainerInfoView, PodData, PodDataView};
use crate::text::{
    age_string, age_text, contains_sub, dec_rep, joined, join_comma, str_eq, u64_to_string,
    u128_to_string,
};

verus! {

/// Coarse lifecycle phase of a cluster object.
#[derive(Debug, PartialEq, Eq)]
pub enum Phase {
    Pending,
    Running,
    Succeeded,
    /// Any unrecognized or absent phase, carrying its raw text.
    Unknown(String),
}

/// Mathematical image of a [`Phase`].
pub ghost enum PhaseView {
    Pending,
    Running,
    Succeeded,
    Unknown(Seq<char>),
}

impl View for Phase {
    type V = PhaseView;

    open spec fn view(&self) -> PhaseView {
        match self {
            Phase::Pending => PhaseView::Pending,
            Phase::Running => PhaseView::Running,
            Phase::Succeeded => PhaseView::Succeeded,
            Phase::Unknown(s) => PhaseView::Unknown(s@),
        }
    }
}

/// How a raw phase text maps to a [`Phase`]: the three recognized
/// names map to their variant, anything else keeps its text, and an
/// absent text reads as unknown.
pub open spec fn phase_of_text(t: Option<Seq<char>>) -> PhaseView {
    match t {
        Option::Some(s) => if s == "Pending"@ {
            PhaseView::Pending
        } else if s == "Running"@ {
            PhaseView::Running
        } else if s == "Succeeded"@ {
            PhaseView::Succeeded
        } else {
            PhaseView::Unknown(s)
        },
        Option::None => PhaseView::Unknown("Unknown"@),
    }
}

/// The display text of a phase.
pub open spec fn phase_text(p: PhaseView) -> Seq<char> {
    match p {
        PhaseView::Pending => "Pending"@,
        PhaseView::Running => "Running"@,
        PhaseView::Succeeded => "Succeeded"@,
        PhaseView::Unknown(s) => s,
    }
}

impl Phase {
    /// Maps a raw phase text to a phase.
    pub fn from_text(t: &Option<String>) -> (r: Phase)
        ensures
            r@ == phase_of_text(crate::model::opt_str_view(*t)),
    {
        match t {
            Option::Some(s) => {
                if str_eq(s.as_str(), "Pending") {
                    Phase::Pending
                } else if str_eq(s.as_str(), "Running") {
                    Phase::Running
                } else if str_eq(s.as_str(), "Succeeded") {
                    Phase::Succeeded
                } else {
                    Phase::Unknown(s.as_str().to_owned())
                }
            },
            Option::None => Phase::Unknown("Unknown".to_owned()),
        }
    }

    /// The display text of the phase.
    pub fn text(&self) -> (r: String)
        ensures
            r@ == phase_text(self@),
    {
        match self {
            Phase::Pending => "Pending".to_owned(),
            Phase::Running => "Running".to_owned(),
            Phase::Succeeded => "Succeeded".to_owned(),
            Phase::Unknown(s) => s.as_str().to_owned(),
        }
    }
}

/// How many of the given containers report ready.
pub open spec fn count_ready(cs: Seq<ContainerInfoView>) -> nat
    decreases cs.len(),
{
    if cs.len() == 0 {
        0
    } else {
        count_ready(cs.drop_last()) + if cs.last().ready {
            1nat
        } else {
            0nat
        }
    }
}

/// The readiness fraction text: ready count over total count, or
/// `0/0` when no per-container status is reported.
pub open spec fn ready_text(p: PodDataView) -> Seq<char> {
    match p.status {
        Option::None => dec_rep(0) + "/"@ + dec_rep(0),
        Option::Some(st) => match st.container_statuses {
            Option::None => dec_rep(0) + "/"@ + dec_rep(0),
            Option::Some(cs) => dec_rep(count_ready(cs)) + "/"@ + dec_rep(cs.len()),
        },
    }
}

/// The sum of the containers' restart counts.
pub open spec fn restart_total(cs: Seq<ContainerInfoView>) -> int
    decreases cs.len(),
{
    if cs.len() == 0 {
        0
    } else {
        restart_total(cs.drop_last()) + cs.last().restart_count
    }
}

/// The most recent termination time over all containers, if any
/// container ever terminated.
pub open spec fn latest_finish(cs: Seq<ContainerInfoView>) -> Option<i64>
    decreases cs.len(),
{
    if cs.len() == 0 {
        Option::None
    } else {
        let rest = latest_finish(cs.drop_last());
        match (rest, cs.last().last_finished_at) {
            (Option::Some(a), Option::Some(b)) => Option::Some(
                if a as int >= b as int {
                    a
                } else {
                    b
                },
            ),
            (Option::Some(a), Option::None) => Option::Some(a),
            (Option::None, Option::Some(b)) => Option::Some(b),
            (Option::None, Option::None) => Option::None,
        }
    }
}

/// The restart summary text: the total alone when no container ever
/// terminated, else the total followed by the age of the most recent
/// termination in parentheses.
pub open spec fn restarts_text(p: PodDataView, now: int) -> Seq<char> {
    match p.status {
        Option::None => dec_rep(0),
        Option::Some(st) => match st.container_statuses {
            Option::None => dec_rep(0),
            Option::Some(cs) => {
                let total = dec_rep(restart_total(cs) as nat);
                match latest_finish(cs) {
                    Option::None => total,
                    Option::Some(f) => total + " ("@ + age_text(now - f) + ")"@,
                }
            },
        },
    }
}

/// The reason a container contributes to the effective phase text:
/// a waiting container contributes its waiting reason (falling back
/// to its terminated reason, then to `unknown`); a container
/// terminated with a reason contributes that reason.
pub open spec fn reason_of(c: ContainerInfoView) -> Option<Seq<char>> {
    if c.waiting {
        Option::Some(
            match c.waiting_reason {
                Option::Some(r) => r,
                Option::None => match c.terminated_reason {
                    Option::Some(r) => r,
                    Option::None => "unknown"@,
                },
            },
        )
    } else {
        c.terminated_reason
    }
}

/// The reasons collected from the containers, in container order.
pub open spec fn reason_parts(cs: Seq<ContainerInfoView>) -> Seq<Seq<char>>
    decreases cs.len(),
{
    if cs.len() == 0 {
        Seq::empty()
    } else {
        reason_parts(cs.drop_last()) + match reason_of(cs.last()) {
            Option::Some(r) => seq![r],
            Option::None => Seq::empty(),
        }
    }
}

/// The derived phase of a resource: with no status block the phase is
/// unknown with empty text; with no per-container status the raw
/// phase field decides; otherwise the reasons of waiting or
/// terminated containers, joined with `", "`, stand in for the phase
/// text, falling back to the raw phase field when no container
/// contributes one.
pub open spec fn phase_view(p: PodDataView) -> PhaseView {
    match p.status {
        Option::None => phase_of_text(Option::Some(""@)),
        Option::Some(st) => match st.container_statuses {
            Option::None => phase_of_text(st.phase),
            Option::Some(cs) => {
                let parts = reason_parts(cs);
                if parts.len() == 0 {
                    phase_of_text(st.phase)
                } else {
                    phase_of_text(Option::Some(joined(parts)))
                }
            },
        },
    }
}

impl PodData {
    /// The object's age relative to `now`: the seconds since its
    /// creation, or zero when the creation time is unknown.
    pub fn age_seconds(&self, now: i64) -> (r: i128)
        ensures
            r == match self@.created_at {
                Option::Some(c) => now - c,
                Option::None => 0,
            },
    {
        match &self.created_at {
            Option::Some(c) => (now as i128) - (*c as i128),
            Option::None => 0,
        }
    }

    /// The object's age rendered for display.
    pub fn age_text(&self, now: i64) -> (r: String)
        ensures
            r@ == age_text(
                match self@.created_at {
                    Option::Some(c) => now - c,
                    Option::None => 0,
                },
            ),
    {
        age_string(self.age_seconds(now))
    }

    /// The readiness fraction, rendered as `ready/total`.
    pub fn ready(&self) -> (r: String)
        ensures
            r@ == ready_text(self@),
    {
        let zero = u64_to_string(0).concat("/");
        match &self.status {
            Option::None => zero.concat(u64_to_string(0).as_str()),
            Option::Some(st) => match &st.container_statuses {
                Option::None => zero.concat(u64_to_string(0).as_str()),
                Option::Some(cs) => {
                    let ghost views = cs@.map_values(|c: crate::model::ContainerInfo| c@);
                    let mut count: usize = 0;
                    let mut i: usize = 0;
                    while i < cs.len()
                        invariant
                            0 <= i <= cs@.len(),
                            count <= i,
                            views == cs@.map_values(|c: crate::model::ContainerInfo| c@),
                            views.len() == cs@.len(),
                            count == count_ready(views.take(i as int)),
                        decreases cs@.len() - i,
                    {
                        proof {
                            assert(views.take(i + 1).drop_last() =~= views.take(i as int));
                            assert(views.take(i + 1).last() == views[i as int]);
                        }
                        if cs[i].ready {
                            count = count + 1;
                        }
                        i = i + 1;
                    }
                    proof {
                        assert(views.take(views.len() as int) =~= views);
                    }
                    u64_to_string(count as u64).concat("/").concat(
                        u64_to_string(cs.len() as u64).as_str(),
                    )
                },
            },
        }
    }

    /// The restart summary relative to `now`: the summed restart
    /// count, and the age of the most recent termination when one
    /// exists.
    pub fn restarts(&self, now: i64) -> (r: String)
        ensures
            r@ == restarts_text(self@, now as int),
    {
        proof {
            reveal_strlit(" (");
            reveal_strlit(")");
        }
        match &self.status {
            Option::None => u64_to_string(0),
            Option::Some(st) => match &st.container_statuses {
                Option::None => u64_to_string(0),
                Option::Some(cs) => {
                    let ghost views = cs@.map_values(|c: crate::model::ContainerInfo| c@);
                    let mut total: u128 = 0;
                    let mut latest: Option<i64> = Option::None;
                    let mut i: usize = 0;
                    while i < cs.len()
                        invariant
                            0 <= i <= cs@.len(),
                            views == cs@.map_values(|c: crate::model::ContainerInfo| c@),
                            views.len() == cs@.len(),
                            total == restart_total(views.take(i as int)),
                            total <= i * 0xffff_ffff,
                            latest == latest_finish(views.take(i as int)),
                        decreases cs@.len() - i,
                    {
                        proof {
                            assert(views.take(i + 1).drop_last() =~= views.take(i as int));
                            assert(views.take(i + 1).last() == views[i as int]);
                            assert((i + 1) * 0xffff_ffff == i * 0xffff_ffff + 0xffff_ffff)
                                by (nonlinear_arith);
                            assert(i * 0xffff_ffff <= views.len() * 0xffff_ffff)
                                by (nonlinear_arith)
                                requires i <= views.len();
                        }
                        total = total + (cs[i].restart_count as u128);
                        latest = match (latest, &cs[i].last_finished_at) {
                            (Option::Some(a), Option::Some(b)) => Option::Some(
                                if a >= *b {
                                    a
                                } else {
                                    *b
                                },
                            ),
                            (Option::Some(a), Option::None) => Option::Some(a),
                            (Option::None, Option::Some(b)) => Option::Some(*b),
                            (Option::None, Option::None) => Option::None,
                        };
                        i = i + 1;
                    }
                    proof {
                        assert(views.take(views.len() as int) =~= views);
                    }
                    let total_str = u128_to_string(total);
                    match latest {
                        Option::None => total_str,
                        Option::Some(f) => {
                            let d = (now as i128) - (f as i128);
                            total_str.concat(" (").concat(age_string(d).as_str()).concat(")")
                        },
                    }
                },
            },
        }
    }

    /// The derived phase of the resource.
    pub fn status(&self) -> (r: Phase)
        ensures
            r@ == phase_view(self@),
    {
        match &self.status {
            Option::None => {
                let empty = String::new();
                proof {
                    reveal_strlit("");
                    assert(empty@ =~= ""@);
                }
                Phase::from_text(&Option::Some(empty))
            },
            Option::Some(st) => match &st.container_statuses {
                Option::None => Phase::from_text(&st.phase),
                Option::Some(cs) => {
                    let ghost views = cs@.map_values(|c: crate::model::ContainerInfo| c@);
                    let mut parts: Vec<String> = Vec::new();
                    let mut i: usize = 0;
                    while i < cs.len()
                        invariant
                            0 <= i <= cs@.len(),
                            views == cs@.map_values(|c: crate::model::ContainerInfo| c@),
                            views.len() == cs@.len(),
                            parts@.map_values(|p: String| p@) == reason_parts(
                                views.take(i as int),
                            ),
                        decreases cs@.len() - i,
                    {
                        proof {
                            assert(views.take(i + 1).drop_last() =~= views.take(i as int));
                            assert(views.take(i + 1).last() == views[i as int]);
                        }
                        let c = &cs[i];
                        let part: Option<String> = if c.waiting {
                            match &c.waiting_reason {
                                Option::Some(r) => Option::Some(r.as_str().to_owned()),
                                Option::None => match &c.terminated_reason {
                                    Option::Some(r) => Option::Some(r.as_str().to_owned()),
                                    Option::None => Option::Some("unknown".to_owned()),
                                },
                            }
                        } else {
                            match &c.terminated_reason {
                                Option::Some(r) => Option::Some(r.as_str().to_owned()),
                                Option::None => Option::None,
                            }
                        };
                        match part {
                            Option::Some(p) => {
                                parts.push(p);
                                proof {
                                    assert(parts@.map_values(|p: String| p@) =~= reason_parts(
                                        views.take(i + 1),
                                    ));
                                }
                            },
                            Option::None => {
                                proof {
                                    assert(parts@.map_values(|p: String| p@) =~= reason_parts(
                                        views.take(i + 1),
                                    ));
                                }
                            },
                        }
                        i = i + 1;
                    }
                    proof {
                        assert(views.take(views.len() as int) =~= views);
                    }
                    if parts.len() == 0 {
                        Phase::from_text(&st.phase)
                    } else {
                        let joined_text = join_comma(&parts);
                        Phase::from_text(&Option::Some(joined_text))
                    }
                },
            },
        }
    }
}

} // verus!
