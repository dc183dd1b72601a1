//! The per-resource container listing: the declared containers of a
//! resource, each joined with its runtime status when one is
//! reported, optionally narrowed by a name filter.

use vstd::prelude::*;

use crate::model::{ContainerInfo, ContainerInfoView, PodData, PodDataView};
use crate::text::{contains_sub, str_contains, str_eq};

verus! {

/// One container of a resource: its declared name and, when the
/// cluster reports one, its runtime status.
#[derive(Debug)]
pub struct Container {
    /// The declared name.
    pub name: String,
    /// The runtime status, when reported.
    pub status: Option<ContainerInfo>,
}

/// Mathematical image of a [`Container`].
pub ghost struct ContainerView {
    pub name: Seq<char>,
    pub status: Option<ContainerInfoView>,
}

impl View for Container {
    type V = ContainerView;

    open spec fn view(&self) -> ContainerView {
        ContainerView {
            name: self.name@,
            status: match self.status {
                Option::Some(st) => Option::Some(st@),
                Option::None => Option::None,
            },
        }
    }
}

/// The declared containers, without statuses yet.
pub open spec fn base_containers(p: PodDataView) -> Seq<ContainerView> {
    p.spec_containers.map_values(|n: Seq<char>| ContainerView { name: n, status: Option::None })
}

/// The first container with this name, at or after position `i`;
/// negative when there is none.
pub open spec fn find_name_from(s: Seq<ContainerView>, name: Seq<char>, i: int) -> int
    decreases s.len() - i,
{
    if i < 0 || i >= s.len() {
        -1
    } else if s[i].name == name {
        i
    } else {
        find_name_from(s, name, i + 1)
    }
}

/// One reported status joined onto the first container bearing its
/// name; a status naming no declared container is dropped.
pub open spec fn apply_status(s: Seq<ContainerView>, st: ContainerInfoView) -> Seq<ContainerView> {
    let i = find_name_from(s, st.name, 0);
    if i < 0 {
        s
    } else {
        s.update(i, ContainerView { name: s[i].name, status: Option::Some(st) })
    }
}

/// All reported statuses joined on, in report order; a later status
/// for the same name replaces an earlier one.
pub open spec fn apply_statuses(
    s: Seq<ContainerView>,
    sts: Seq<ContainerInfoView>,
) -> Seq<ContainerView>
    decreases sts.len(),
{
    if sts.len() == 0 {
        s
    } else {
        apply_status(apply_statuses(s, sts.drop_last()), sts.last())
    }
}

/// The first `n` containers whose name contains the filter text.
pub open spec fn kept_containers(s: Seq<ContainerView>, f: Seq<char>, n: int) -> Seq<ContainerView>
    decreases n,
{
    if n <= 0 {
        Seq::empty()
    } else {
        kept_containers(s, f, n - 1) + if contains_sub(s[n - 1].name, f) {
            seq![s[n - 1]]
        } else {
            Seq::empty()
        }
    }
}

/// The container listing of a resource: the declared containers with
/// their statuses joined on, narrowed to those whose name contains
/// the filter when one is given.
pub open spec fn derived_containers(
    p: PodDataView,
    filter: Option<Seq<char>>,
) -> Seq<ContainerView> {
    let with = match p.status {
        Option::Some(st) => match st.container_statuses {
            Option::Some(cs) => apply_statuses(base_containers(p), cs),
            Option::None => base_containers(p),
        },
        Option::None => base_containers(p),
    };
    match filter {
        Option::None => with,
        Option::Some(f) => kept_containers(with, f, with.len() as int),
    }
}

impl ContainerInfo {
    /// A value-identical copy.
    pub fn duplicate(&self) -> (r: ContainerInfo)
        ensures
            r@ == self@,
    {
        ContainerInfo {
            name: self.name.as_str().to_owned(),
            ready: self.ready,
            restart_count: self.restart_count,
            waiting: self.waiting,
            waiting_reason: match &self.waiting_reason {
                Option::Some(s) => Option::Some(s.as_str().to_owned()),
                Option::None => Option::None,
            },
            terminated_reason: match &self.terminated_reason {
                Option::Some(s) => Option::Some(s.as_str().to_owned()),
                Option::None => Option::None,
            },
            last_finished_at: self.last_finished_at,
        }
    }
}

/// Turns a string into its characters.
fn str_chars(s: &str) -> (r: Vec<char>)
    ensures
        r@ == s@,
{
    let n = s.unicode_len();
    let mut out: Vec<char> = Vec::new();
    let mut i: usize = 0;
    while i < n
        invariant
            0 <= i <= n,
            n == s@.len(),
            out@ == s@.take(i as int),
        decreases n - i,
    {
        out.push(s.get_char(i));
        proof {
            assert(out@ =~= s@.take(i + 1));
        }
        i = i + 1;
    }
    proof {
        assert(s@.take(n as int) =~= s@);
    }
    out
}

impl PodData {
    /// The resource's containers: every declared container, joined
    /// with its reported status, narrowed by the name filter when
    /// one is given.
    pub fn containers(&self, filter: Option<String>) -> (r: Vec<Container>)
        ensures
            r@.map_values(|c: Container| c@) == derived_containers(
                self@,
                crate::model::opt_str_view(filter),
            ),
    {
        let mut out: Vec<Container> = Vec::new();
        let n = self.spec_containers.len();
        let mut i: usize = 0;
        while i < n
            invariant
                0 <= i <= n,
                n == self.spec_containers@.len(),
                out@.map_values(|c: Container| c@) == base_containers(self@).take(i as int),
            decreases n - i,
        {
            let ghost prev = out@;
            out.push(Container { name: self.spec_containers[i].as_str().to_owned(), status: Option::None });
            proof {
                let base = base_containers(self@);
                assert(prev.map_values(|c: Container| c@).len() == prev.len());
                assert(base[i as int] == ContainerView {
                    name: self@.spec_containers[i as int],
                    status: Option::None,
                });
                assert(out@.map_values(|c: Container| c@) =~= base.take(i + 1));
            }
            i = i + 1;
        }
        proof {
            assert(base_containers(self@).take(n as int) =~= base_containers(self@));
        }
        if let Option::Some(st) = &self.status {
            if let Option::Some(cs) = &st.container_statuses {
                let ghost views = cs@.map_values(|c: ContainerInfo| c@);
                let ghost base = base_containers(self@);
                let m_total = cs.len();
                let mut m: usize = 0;
                while m < m_total
                    invariant
                        0 <= m <= m_total,
                        m_total == cs@.len(),
                        views == cs@.map_values(|c: ContainerInfo| c@),
                        views.len() == cs@.len(),
                        out@.map_values(|c: Container| c@) == apply_statuses(
                            base,
                            views.take(m as int),
                        ),
                    decreases m_total - m,
                {
                    let ghost cur = out@.map_values(|c: Container| c@);
                    let st_name = cs[m].name.as_str();
                    let k_total = out.len();
                    let mut k: usize = 0;
                    let mut found: Option<usize> = Option::None;
                    while k < k_total
                        invariant
                            0 <= k <= k_total,
                            k_total == out@.len(),
                            cur == out@.map_values(|c: Container| c@),
                            st_name@ == views[m as int].name,
                            m < views.len(),
                            match found {
                                Option::Some(u) => u < out@.len() && find_name_from(
                                    cur,
                                    st_name@,
                                    0,
                                ) == u as int,
                                Option::None => find_name_from(cur, st_name@, 0)
                                    == find_name_from(cur, st_name@, k as int),
                            },
                        decreases k_total - k,
                    {
                        if found.is_none() {
                            if str_eq(out[k].name.as_str(), st_name) {
                                found = Option::Some(k);
                            }
                        }
                        k = k + 1;
                    }
                    match found {
                        Option::Some(u) => {
                            let name_back = out[u].name.as_str().to_owned();
                            let newc = Container {
                                name: name_back,
                                status: Option::Some(cs[m].duplicate()),
                            };
                            out.remove(u);
                            out.insert(u, newc);
                            proof {
                                assert(out@.map_values(|c: Container| c@) =~= cur.update(
                                    u as int,
                                    ContainerView {
                                        name: cur[u as int].name,
                                        status: Option::Some(views[m as int]),
                                    },
                                ));
                                assert(views.take(m + 1).drop_last() =~= views.take(m as int));
                                assert(views.take(m + 1).last() == views[m as int]);
                            }
                        },
                        Option::None => {
                            proof {
                                assert(views.take(m + 1).drop_last() =~= views.take(m as int));
                                assert(views.take(m + 1).last() == views[m as int]);
                                assert(out@.map_values(|c: Container| c@) == apply_statuses(
                                    base,
                                    views.take(m + 1),
                                ));
                            }
                        },
                    }
                    m = m + 1;
                }
                proof {
                    assert(views.take(views.len() as int) =~= views);
                }
            }
        }
        match filter {
            Option::None => out,
            Option::Some(f) => {
                let needle = str_chars(f.as_str());
                let ghost with = out@.map_values(|c: Container| c@);
                let mut narrowed: Vec<Container> = Vec::new();
                let j_total = out.len();
                let mut j: usize = 0;
                while j < j_total
                    invariant
                        0 <= j <= j_total,
                        j_total == out@.len(),
                        with == out@.map_values(|c: Container| c@),
                        needle@ == f@,
                        narrowed@.map_values(|c: Container| c@) == kept_containers(
                            with,
                            f@,
                            j as int,
                        ),
                    decreases j_total - j,
                {
                    if str_contains(out[j].name.as_str(), needle.as_slice()) {
                        let kept = Container {
                            name: out[j].name.as_str().to_owned(),
                            status: match &out[j].status {
                                Option::Some(st) => Option::Some(st.duplicate()),
                                Option::None => Option::None,
                            },
                        };
                        narrowed.push(kept);
                        proof {
                            assert(narrowed@.map_values(|c: Container| c@) =~= kept_containers(
                                with,
                                f@,
                                j as int,
                            ) + seq![with[j as int]]);
                        }
                    } else {
                        proof {
                            assert(narrowed@.map_values(|c: Container| c@) =~= kept_containers(
                                with,
                                f@,
                                j + 1,
                            ));
                        }
                    }
                    j = j + 1;
                }
                narrowed
            },
        }
    }
}

} // verus!
