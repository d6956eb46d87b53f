//! The interactive resolve session: the same dependants-closure traversal as
//! the non-interactive resolver, but where the operator decides, crate by
//! crate, whether a change is breaking and which dependants to bump. The
//! session is a request/response state machine driven one step at a time:
//! each [`ResolveSession::advance`] call applies the pending answer or
//! consumes one worklist entry, and its contract states the exact transition
//! — what joins the map, what joins the worklist, and which question (if
//! any) comes next. An answer of the wrong shape for the pending question is
//! a protocol error. Whatever the operator answers, a name is inserted at
//! most once, and every recorded version is the bump policy applied to the
//! published one.

use vstd::prelude::*;

use crate::commands::{PromptAnswer, PromptRequest};
use crate::errors::Error;
use crate::package::{
    can_publish, can_publish_spec, depends_on, distinct_names, has_dependency_on,
    is_publishable_member, Package, PackageView,
};
use crate::resolver::lemma_member_keys_bounded;
use crate::version::{bump_fits, bump_spec, calc_bumped_version, VersionView};
use crate::vmap::VersionMap;

verus! {

enum Awaiting {
    Nothing,
    Confirm(String),
    Select(String),
}

/// An in-flight interactive resolve run.
pub struct ResolveSession {
    start: String,
    queue: Vec<(String, bool)>,
    result: VersionMap,
    awaiting: Awaiting,
}

/// What one [`ResolveSession::advance`] call reports back.
pub enum SessionStep {
    /// One unit of work was consumed; call again with no answer.
    Working,
    /// The traversal is complete; the map holds every resolved name.
    Done,
    /// The operator must answer this question before the session proceeds.
    Ask(PromptRequest),
}

/// Both answers the operator can give keep the bumped component
/// representable.
pub open spec fn bump_fits_both(v: VersionView) -> bool {
    bump_fits(v, true) && bump_fits(v, false)
}

/// The names of the publishable packages that declare a direct dependency on
/// `name`, in workspace order: the candidates for bumping along with it.
pub open spec fn dependant_names(pkgs: Seq<PackageView>, name: Seq<char>) -> Seq<Seq<char>> {
    pkgs.filter(|p: PackageView| can_publish_spec(p) && depends_on(p, name)).map_values(
        |p: PackageView| p.name,
    )
}

impl ResolveSession {
    /// The crate this session resolves from.
    pub closed spec fn target(&self) -> Seq<char> {
        self.start@
    }

    /// The names resolved so far, each with its new version.
    pub closed spec fn result_map(&self) -> Map<Seq<char>, VersionView> {
        self.result.map_view()
    }

    /// The result holds each name at most once.
    pub closed spec fn result_wf(&self) -> bool {
        self.result.wf()
    }

    /// The worklist of names still to resolve, newest last, each with the
    /// breaking flag it inherited.
    pub closed spec fn pending(&self) -> Seq<(Seq<char>, bool)> {
        Seq::new(self.queue@.len(), |i: int| (self.queue@[i].0@, self.queue@[i].1))
    }

    /// The crate an open yes/no question is about, if one is open.
    pub closed spec fn open_confirm(&self) -> Option<Seq<char>> {
        match self.awaiting {
            Awaiting::Confirm(x) => Some(x@),
            _ => None,
        }
    }

    /// The crate an open dependant selection is about, if one is open.
    pub closed spec fn open_select(&self) -> Option<Seq<char>> {
        match self.awaiting {
            Awaiting::Select(x) => Some(x@),
            _ => None,
        }
    }

    /// A yes/no question is open.
    pub open spec fn expects_confirm(&self) -> bool {
        self.open_confirm() is Some
    }

    /// A selection question is open.
    pub open spec fn expects_select(&self) -> bool {
        self.open_select() is Some
    }

    /// Nothing is pending and no question is open.
    pub open spec fn is_done(&self) -> bool {
        self.pending().len() == 0 && !self.expects_confirm() && !self.expects_select()
    }

    /// The session's invariant: the map holds distinct names, only
    /// publishable members with a published version, each mapped to the bump
    /// policy applied under one of the two possible breaking flags; the
    /// worklist and any open question hold publishable members, a questioned
    /// crate is not yet resolved, and the target is never lost — it is
    /// resolved, pending, or the subject of the open question.
    pub closed spec fn session_wf(
        &self,
        pkgs: Seq<PackageView>,
        published: Map<Seq<char>, VersionView>,
    ) -> bool {
        &&& self.result.wf()
        &&& self.result.entries_seq().len() <= pkgs.len()
        &&& forall|n: Seq<char>|
            #[trigger] self.result.map_view().dom().contains(n) ==> {
                &&& is_publishable_member(pkgs, n)
                &&& published.dom().contains(n)
                &&& (self.result.map_view()[n] == bump_spec(published[n], true)
                    || self.result.map_view()[n] == bump_spec(published[n], false))
            }
        &&& forall|j: int|
            0 <= j < self.queue@.len() ==> is_publishable_member(
                pkgs,
                (#[trigger] self.queue@[j]).0@,
            )
        &&& match self.awaiting {
            Awaiting::Nothing => true,
            Awaiting::Confirm(x) => is_publishable_member(pkgs, x@)
                && !self.result.map_view().dom().contains(x@),
            Awaiting::Select(x) => is_publishable_member(pkgs, x@)
                && !self.result.map_view().dom().contains(x@),
        }
        &&& {
            ||| self.result.map_view().dom().contains(self.start@)
            ||| exists|j: int|
                0 <= j < self.queue@.len() && (#[trigger] self.queue@[j]).0@ == self.start@
            ||| (match self.awaiting {
                Awaiting::Nothing => false,
                Awaiting::Confirm(x) => x@ == self.start@,
                Awaiting::Select(x) => x@ == self.start@,
            })
        }
    }

    /// Starts a session aimed at `start`, which must be a publishable
    /// workspace member; the worklist then holds exactly that crate, with a
    /// non-breaking flag the operator's answers may override.
    pub fn begin(packages: &Vec<Package>, start: &String) -> (r: Result<ResolveSession, Error>)
        ensures
            match r {
                Ok(s) => {
                    &&& is_publishable_member(packages.deep_view(), start@)
                    &&& forall|m: Map<Seq<char>, VersionView>|
                        #[trigger] s.session_wf(packages.deep_view(), m)
                    &&& s.result_map().dom() =~= Set::<Seq<char>>::empty()
                    &&& s.pending() =~= seq![(start@, false)]
                    &&& s.target() == start@
                    &&& !s.expects_confirm() && !s.expects_select()
                },
                Err(Error::WorkspaceNotFound(n)) => {
                    &&& n@ == start@
                    &&& !is_publishable_member(packages.deep_view(), start@)
                },
                Err(_) => false,
            },
    {
        if !is_publishable_member_exec(packages, start) {
            return Err(Error::WorkspaceNotFound(start.clone()));
        }
        let mut queue: Vec<(String, bool)> = Vec::new();
        queue.push((start.clone(), false));
        let s = ResolveSession {
            start: start.clone(),
            queue,
            result: VersionMap::new(),
            awaiting: Awaiting::Nothing,
        };
        proof {
            assert(s.queue@[0].0@ == start@);
            assert(s.pending() =~= seq![(start@, false)]);
            assert forall|m: Map<Seq<char>, VersionView>| #[trigger] s.session_wf(
                packages.deep_view(),
                m,
            ) by {
                assert(forall|n: Seq<char>| !(#[trigger] s.result.map_view().dom().contains(n)));
            }
        }
        Ok(s)
    }

    /// Hands the finished (or aborted) session's map to the caller.
    pub fn into_result(self) -> (r: VersionMap)
        ensures
            r.map_view() == self.result_map(),
            r.wf() == self.result_wf(),
    {
        self.result
    }

    /// Records `name` with the bump policy applied under `breaking` (a no-op
    /// when it is already recorded).
    fn insert_name(
        &mut self,
        packages: &Vec<Package>,
        published: &VersionMap,
        name: &String,
        breaking: bool,
    ) -> (r: Result<(), Error>)
        requires
            published.wf(),
            forall|k: Seq<char>|
                #[trigger] published.map_view().dom().contains(k) ==> bump_fits_both(
                    published.map_view()[k],
                ),
            old(self).session_wf(packages.deep_view(), published.map_view()),
            is_publishable_member(packages.deep_view(), name@),
        ensures
            final(self).queue == old(self).queue,
            final(self).awaiting == old(self).awaiting,
            final(self).start == old(self).start,
            match r {
                Ok(()) => {
                    &&& final(self).result.wf()
                    &&& final(self).result.entries_seq().len() <= packages.deep_view().len()
                    &&& forall|n: Seq<char>|
                        #[trigger] final(self).result.map_view().dom().contains(n) ==> {
                            &&& is_publishable_member(packages.deep_view(), n)
                            &&& published.map_view().dom().contains(n)
                            &&& (final(self).result.map_view()[n] == bump_spec(
                                published.map_view()[n],
                                true,
                            ) || final(self).result.map_view()[n] == bump_spec(
                                published.map_view()[n],
                                false,
                            ))
                        }
                    &&& (if old(self).result.map_view().dom().contains(name@) {
                        &&& final(self).result.map_view() == old(self).result.map_view()
                        &&& final(self).result.entries_seq().len() == old(
                            self,
                        ).result.entries_seq().len()
                    } else {
                        &&& final(self).result.map_view() == old(self).result.map_view().insert(
                            name@,
                            bump_spec(published.map_view()[name@], breaking),
                        )
                        &&& final(self).result.entries_seq().len() == old(
                            self,
                        ).result.entries_seq().len() + 1
                    })
                    &&& final(self).result.map_view().dom()
                        == old(self).result.map_view().dom().insert(name@)
                    &&& published.map_view().dom().contains(name@)
                },
                Err(Error::RegistryLookupFailed(n)) => {
                    &&& n@ == name@
                    &&& !published.map_view().dom().contains(name@)
                    &&& *final(self) == *old(self)
                },
                Err(_) => false,
            },
    {
        let ghost pkgs = packages.deep_view();
        if self.result.contains_name(name) {
            proof {
                assert(self.result.map_view().dom() =~= self.result.map_view().dom().insert(
                    name@,
                ));
            }
            return Ok(());
        }
        let pv = match published.get(name) {
            None => {
                return Err(Error::RegistryLookupFailed(name.clone()));
            },
            Some(pv) => pv,
        };
        let nv = calc_bumped_version(pv, breaking);
        self.result.insert(name.clone(), nv);
        proof {
            let keys = Seq::new(self.result.entries_seq().len(), |i: int| self.result.entries_seq()[i].0);
            assert forall|i: int| 0 <= i < keys.len() implies is_publishable_member(
                pkgs,
                #[trigger] keys[i],
            ) by {
                assert(self.result.map_view().dom().contains(self.result.entries_seq()[i].0)) by {
                    self.result.lemma_view_corresponds();
                }
            }
            assert(keys.no_duplicates());
            lemma_member_keys_bounded(pkgs, keys);
        }
        Ok(())
    }

    /// Appends every given name to the worklist under the given flag. The
    /// names must all be publishable members.
    fn push_pairs(
        &mut self,
        Ghost(pkgs): Ghost<Seq<PackageView>>,
        names: &Vec<String>,
        flag: bool,
    )
        requires
            forall|j: int|
                0 <= j < names@.len() ==> is_publishable_member(pkgs, (#[trigger] names@[j])@),
        ensures
            final(self).result == old(self).result,
            final(self).awaiting == old(self).awaiting,
            final(self).start == old(self).start,
            final(self).queue@.len() == old(self).queue@.len() + names@.len(),
            forall|j: int|
                0 <= j < old(self).queue@.len() ==> (#[trigger] final(self).queue@[j]) == old(
                    self,
                ).queue@[j],
            forall|j: int|
                0 <= j < names@.len() ==> {
                    &&& (#[trigger] final(self).queue@[old(self).queue@.len() + j]).0@
                        == names@[j]@
                    &&& final(self).queue@[old(self).queue@.len() + j].1 == flag
                },
    {
        let mut i: usize = 0;
        while i < names.len()
            invariant
                i <= names.len(),
                self.result == old(self).result,
                self.awaiting == old(self).awaiting,
                self.start == old(self).start,
                self.queue@.len() == old(self).queue@.len() + i,
                forall|j: int|
                    0 <= j < old(self).queue@.len() ==> (#[trigger] self.queue@[j]) == old(
                        self,
                    ).queue@[j],
                forall|j: int|
                    0 <= j < i ==> {
                        &&& (#[trigger] self.queue@[old(self).queue@.len() + j]).0@ == names@[j]@
                        &&& self.queue@[old(self).queue@.len() + j].1 == flag
                    },
            decreases names.len() - i,
        {
            self.queue.push((names[i].clone(), flag));
            i = i + 1;
        }
    }

    /// Runs one step of the session. With a question open, the answer must
    /// fit it: a confirmed "yes" records the questioned crate with a breaking
    /// bump and queues all its publishable dependants as breaking; a "no"
    /// opens the selection over exactly those dependants; a selection records
    /// the crate with a non-breaking bump and queues the selected members.
    /// Otherwise one worklist entry is consumed: an already-recorded name is
    /// dropped, a non-breaking entry with dependants becomes the next yes/no
    /// question, and anything else is recorded under its flag (a breaking
    /// entry queues its dependants as breaking). `Done` comes exactly when
    /// nothing is left, and then the target is in the map.
    pub fn advance(
        &mut self,
        packages: &Vec<Package>,
        published: &VersionMap,
        answer: Option<PromptAnswer>,
    ) -> (r: Result<SessionStep, Error>)
        requires
            distinct_names(packages.deep_view()),
            published.wf(),
            forall|k: Seq<char>|
                #[trigger] published.map_view().dom().contains(k) ==> bump_fits_both(
                    published.map_view()[k],
                ),
            old(self).session_wf(packages.deep_view(), published.map_view()),
        ensures
            final(self).session_wf(packages.deep_view(), published.map_view()),
            final(self).target() == old(self).target(),
            forall|n: Seq<char>|
                #[trigger] old(self).result_map().dom().contains(n)
                    ==> final(self).result_map().dom().contains(n)
                    && final(self).result_map()[n] == old(self).result_map()[n],
            ({
                let pkgs = packages.deep_view();
                let pub_map = published.map_view();
                match r {
                    Ok(step) => {
                        if old(self).expects_confirm() {
                            let x = old(self).open_confirm().unwrap();
                            match answer {
                                Some(PromptAnswer::Confirmed(true)) => {
                                    &&& pub_map.dom().contains(x)
                                    &&& final(self).result_map() == old(self).result_map().insert(
                                        x,
                                        bump_spec(pub_map[x], true),
                                    )
                                    &&& final(self).pending() =~= old(self).pending()
                                        + dependant_names(pkgs, x).map_values(
                                        |n: Seq<char>| (n, true),
                                    )
                                    &&& !final(self).expects_confirm()
                                    &&& !final(self).expects_select()
                                    &&& step is Working
                                },
                                Some(PromptAnswer::Confirmed(false)) => {
                                    &&& final(self).result_map() == old(self).result_map()
                                    &&& final(self).pending() == old(self).pending()
                                    &&& final(self).open_select() == Some(x)
                                    &&& (step matches SessionStep::Ask(
                                        PromptRequest::SelectDependants(q, opts),
                                    ) && q@ == x && opts.deep_view() == dependant_names(pkgs, x))
                                },
                                _ => false,
                            }
                        } else if old(self).expects_select() {
                            let x = old(self).open_select().unwrap();
                            match answer {
                                Some(PromptAnswer::Selected(sel)) => {
                                    &&& pub_map.dom().contains(x)
                                    &&& final(self).result_map() == old(self).result_map().insert(
                                        x,
                                        bump_spec(pub_map[x], false),
                                    )
                                    &&& final(self).pending() =~= old(self).pending()
                                        + sel.deep_view().filter(
                                        |n: Seq<char>| is_publishable_member(pkgs, n),
                                    ).map_values(|n: Seq<char>| (n, false))
                                    &&& !final(self).expects_confirm()
                                    &&& !final(self).expects_select()
                                    &&& step is Working
                                },
                                _ => false,
                            }
                        } else {
                            &&& answer is None
                            &&& if old(self).pending().len() == 0 {
                                &&& step is Done
                                &&& *final(self) == *old(self)
                                &&& final(self).result_map().dom().contains(old(self).target())
                            } else {
                                let entry = old(self).pending().last();
                                if old(self).result_map().dom().contains(entry.0) {
                                    &&& step is Working
                                    &&& final(self).result_map() == old(self).result_map()
                                    &&& final(self).pending() =~= old(self).pending().drop_last()
                                    &&& !final(self).expects_confirm()
                                    &&& !final(self).expects_select()
                                } else if !entry.1 && dependant_names(pkgs, entry.0).len() > 0 {
                                    &&& final(self).result_map() == old(self).result_map()
                                    &&& final(self).pending() =~= old(self).pending().drop_last()
                                    &&& final(self).open_confirm() == Some(entry.0)
                                    &&& (step matches SessionStep::Ask(
                                        PromptRequest::ConfirmBreaking(q),
                                    ) && q@ == entry.0)
                                } else {
                                    &&& step is Working
                                    &&& pub_map.dom().contains(entry.0)
                                    &&& final(self).result_map() == old(self).result_map().insert(
                                        entry.0,
                                        bump_spec(pub_map[entry.0], entry.1),
                                    )
                                    &&& final(self).pending()
                                        =~= old(self).pending().drop_last() + (if entry.1 {
                                        dependant_names(pkgs, entry.0).map_values(
                                            |n: Seq<char>| (n, true),
                                        )
                                    } else {
                                        Seq::<(Seq<char>, bool)>::empty()
                                    })
                                    &&& !final(self).expects_confirm()
                                    &&& !final(self).expects_select()
                                }
                            }
                        }
                    },
                    Err(Error::InteractivePromptProtocolError) => {
                        &&& *final(self) == *old(self)
                        &&& {
                            ||| (old(self).expects_confirm() && !(answer matches Some(
                                PromptAnswer::Confirmed(_),
                            )))
                            ||| (old(self).expects_select() && !(answer matches Some(
                                PromptAnswer::Selected(_),
                            )))
                            ||| (!old(self).expects_confirm() && !old(self).expects_select()
                                && answer is Some)
                        }
                    },
                    Err(Error::RegistryLookupFailed(n)) => {
                        &&& is_publishable_member(pkgs, n@)
                        &&& !pub_map.dom().contains(n@)
                        &&& *final(self) == *old(self)
                        &&& (if old(self).expects_confirm() {
                            Some(n@) == old(self).open_confirm()
                        } else if old(self).expects_select() {
                            Some(n@) == old(self).open_select()
                        } else {
                            old(self).pending().len() > 0 && n@ == old(self).pending().last().0
                        })
                    },
                    Err(_) => false,
                }
            }),
    {
        let ghost pkgs = packages.deep_view();
        let ghost pre = *self;

        // Resolve the open question first, if any.
        let open = match &self.awaiting {
            Awaiting::Nothing => None,
            Awaiting::Confirm(x) => Some((x.clone(), true)),
            Awaiting::Select(x) => Some((x.clone(), false)),
        };
        match open {
            Some((x, true)) => {
                proof {
                    assert(pre.open_confirm() == Some(x@));
                }
                match answer {
                    Some(PromptAnswer::Confirmed(true)) => {
                        match self.insert_name(packages, published, &x, true) {
                            Ok(()) => {},
                            Err(e) => {
                                return Err(e);
                            },
                        }
                        self.awaiting = Awaiting::Nothing;
                        let deps = direct_dependants(packages, &x);
                        self.push_pairs(Ghost(pkgs), &deps, true);
                        proof {
                            self.lemma_after_grow(pre, pkgs, published.map_view(), x@, deps@);
                            assert(deps.deep_view().len() == deps@.len());
                            let ghost expected = pre.pending() + dependant_names(
                                pkgs,
                                x@,
                            ).map_values(|n: Seq<char>| (n, true));
                            assert(self.pending().len() == expected.len());
                            assert forall|j: int| 0 <= j < expected.len() implies self.pending()[j]
                                == expected[j] by {
                                if j < pre.pending().len() {
                                    assert(self.queue@[j] == pre.queue@[j]);
                                } else {
                                    let k = j - pre.pending().len();
                                    assert(self.queue@[pre.queue@.len() + k].0@ == deps@[k]@);
                                    assert(self.queue@[pre.queue@.len() + k].1 == true);
                                    assert(deps.deep_view()[k] == deps@[k]@);
                                }
                            }
                            assert(self.pending() =~= expected);
                        }
                        Ok(SessionStep::Working)
                    },
                    Some(PromptAnswer::Confirmed(false)) => {
                        let deps = direct_dependants(packages, &x);
                        self.awaiting = Awaiting::Select(x.clone());
                        proof {
                            assert(self.pending() =~= pre.pending());
                        }
                        Ok(SessionStep::Ask(PromptRequest::SelectDependants(x, deps)))
                    },
                    _ => Err(Error::InteractivePromptProtocolError),
                }
            },
            Some((x, false)) => {
                proof {
                    assert(pre.open_select() == Some(x@));
                }
                match answer {
                    Some(PromptAnswer::Selected(sel)) => {
                        match self.insert_name(packages, published, &x, false) {
                            Ok(()) => {},
                            Err(e) => {
                                return Err(e);
                            },
                        }
                        self.awaiting = Awaiting::Nothing;
                        let kept = keep_members(packages, &sel);
                        self.push_pairs(Ghost(pkgs), &kept, false);
                        proof {
                            self.lemma_after_grow(pre, pkgs, published.map_view(), x@, kept@);
                            assert(kept.deep_view().len() == kept@.len());
                            let ghost expected = pre.pending() + sel.deep_view().filter(
                                |n: Seq<char>| is_publishable_member(pkgs, n),
                            ).map_values(|n: Seq<char>| (n, false));
                            assert(self.pending().len() == expected.len());
                            assert forall|j: int| 0 <= j < expected.len() implies self.pending()[j]
                                == expected[j] by {
                                if j < pre.pending().len() {
                                    assert(self.queue@[j] == pre.queue@[j]);
                                } else {
                                    let k = j - pre.pending().len();
                                    assert(self.queue@[pre.queue@.len() + k].0@ == kept@[k]@);
                                    assert(self.queue@[pre.queue@.len() + k].1 == false);
                                    assert(kept.deep_view()[k] == kept@[k]@);
                                }
                            }
                            assert(self.pending() =~= expected);
                        }
                        Ok(SessionStep::Working)
                    },
                    _ => Err(Error::InteractivePromptProtocolError),
                }
            },
            None => {
                proof {
                    assert(pre.awaiting is Nothing);
                }
                if answer.is_some() {
                    return Err(Error::InteractivePromptProtocolError);
                }
                if self.queue.len() == 0 {
                    proof {
                        // With nothing pending and no question open, the
                        // target can only sit in the map.
                        assert(self.result.map_view().dom().contains(self.start@));
                    }
                    return Ok(SessionStep::Done);
                }
                let last = self.queue.len() - 1;
                let x = self.queue[last].0.clone();
                let b = self.queue[last].1;
                proof {
                    assert(pre.pending().last() == (x@, b));
                    assert(is_publishable_member(pkgs, x@));
                }
                if self.result.contains_name(&x) {
                    let _ = self.queue.pop();
                    proof {
                        assert(self.pending() =~= pre.pending().drop_last());
                        self.lemma_after_pop(pre, pkgs, published.map_view(), x@);
                    }
                    return Ok(SessionStep::Working);
                }
                let deps = direct_dependants(packages, &x);
                proof {
                    assert(deps@.len() == dependant_names(pkgs, x@).len()) by {
                        assert(deps.deep_view().len() == deps@.len());
                    }
                }
                if !b && deps.len() > 0 {
                    let _ = self.queue.pop();
                    self.awaiting = Awaiting::Confirm(x.clone());
                    proof {
                        assert(self.pending() =~= pre.pending().drop_last());
                        if !self.result.map_view().dom().contains(self.start@) {
                            if x@ != pre.start@ {
                                let j = choose|j: int|
                                    0 <= j < pre.queue@.len() && (#[trigger] pre.queue@[j]).0@
                                        == pre.start@;
                                assert(j < pre.queue@.len() - 1);
                                assert(self.queue@[j].0@ == self.start@);
                            }
                        }
                    }
                    return Ok(SessionStep::Ask(PromptRequest::ConfirmBreaking(x)));
                }
                match self.insert_name(packages, published, &x, b) {
                    Ok(()) => {},
                    Err(e) => {
                        return Err(e);
                    },
                }
                let _ = self.queue.pop();
                let ghost mid = self.pending();
                proof {
                    assert(mid =~= pre.pending().drop_last());
                }
                if b {
                    self.push_pairs(Ghost(pkgs), &deps, true);
                    proof {
                        assert forall|j: int| 0 <= j < self.queue@.len() implies
                            is_publishable_member(pkgs, (#[trigger] self.queue@[j]).0@) by {
                            if j < pre.queue@.len() - 1 {
                                assert(self.queue@[j] == pre.queue@[j]);
                            } else {
                                let k = j - (pre.queue@.len() - 1);
                                assert(self.queue@[mid.len() + k].0@ == deps@[k]@);
                            }
                        }
                        let ghost expected = pre.pending().drop_last() + dependant_names(
                            pkgs,
                            x@,
                        ).map_values(|n: Seq<char>| (n, true));
                        assert(deps.deep_view().len() == deps@.len());
                        assert(self.pending().len() == expected.len());
                        assert forall|j: int| 0 <= j < expected.len() implies self.pending()[j]
                            == expected[j] by {
                            if j < pre.pending().len() - 1 {
                                assert(self.queue@[j] == pre.queue@[j]);
                            } else {
                                let k = j - (pre.pending().len() - 1);
                                assert(self.queue@[mid.len() + k].0@ == deps@[k]@);
                                assert(self.queue@[mid.len() + k].1 == true);
                                assert(deps.deep_view()[k] == deps@[k]@);
                            }
                        }
                        assert(self.pending() =~= expected);
                        self.lemma_target_after_insert(pre, x@);
                    }
                } else {
                    proof {
                        assert(self.pending() =~= pre.pending().drop_last()
                            + Seq::<(Seq<char>, bool)>::empty());
                        self.lemma_target_after_insert(pre, x@);
                    }
                }
                Ok(SessionStep::Working)
            },
        }
    }

    /// After answering a question about `x`: `x` is resolved, the worklist
    /// grew by member names only, and the target is still tracked.
    proof fn lemma_after_grow(
        &self,
        pre: ResolveSession,
        pkgs: Seq<PackageView>,
        published: Map<Seq<char>, VersionView>,
        x: Seq<char>,
        appended: Seq<String>,
    )
        requires
            pre.session_wf(pkgs, published),
            self.result.wf(),
            self.result.entries_seq().len() <= pkgs.len(),
            forall|n: Seq<char>|
                #[trigger] self.result.map_view().dom().contains(n) ==> {
                    &&& is_publishable_member(pkgs, n)
                    &&& published.dom().contains(n)
                    &&& (self.result.map_view()[n] == bump_spec(published[n], true)
                        || self.result.map_view()[n] == bump_spec(published[n], false))
                },
            self.result.map_view().dom().contains(x),
            pre.result.map_view().dom().subset_of(self.result.map_view().dom()),
            self.awaiting is Nothing,
            self.start == pre.start,
            (match pre.awaiting {
                Awaiting::Nothing => false,
                Awaiting::Confirm(q) => q@ == x,
                Awaiting::Select(q) => q@ == x,
            }),
            self.queue@.len() == pre.queue@.len() + appended.len(),
            forall|j: int|
                0 <= j < pre.queue@.len() ==> (#[trigger] self.queue@[j]) == pre.queue@[j],
            forall|j: int|
                0 <= j < appended.len() ==> is_publishable_member(
                    pkgs,
                    (#[trigger] appended[j])@,
                ) && self.queue@[pre.queue@.len() + j].0@ == appended[j]@,
        ensures
            self.session_wf(pkgs, published),
    {
        assert forall|j: int| 0 <= j < self.queue@.len() implies is_publishable_member(
            pkgs,
            (#[trigger] self.queue@[j]).0@,
        ) by {
            if j < pre.queue@.len() {
                assert(self.queue@[j] == pre.queue@[j]);
            } else {
                assert(self.queue@[j].0@ == appended[j - pre.queue@.len()]@);
            }
        }
        if !self.result.map_view().dom().contains(self.start@) {
            assert(x != pre.start@);
            assert(!pre.result.map_view().dom().contains(pre.start@));
            let j = choose|j: int|
                0 <= j < pre.queue@.len() && (#[trigger] pre.queue@[j]).0@ == pre.start@;
            assert(self.queue@[j].0@ == self.start@);
        }
    }

    /// After recording the worklist's last entry `x` (or dropping it because
    /// it was already recorded), the target is still tracked.
    proof fn lemma_target_after_insert(&self, pre: ResolveSession, x: Seq<char>)
        requires
            pre.queue@.len() > 0,
            pre.queue@.last().0@ == x,
            self.result.map_view().dom().contains(x),
            pre.result.map_view().dom().subset_of(self.result.map_view().dom()),
            self.start == pre.start,
            pre.awaiting is Nothing,
            ({
                ||| pre.result.map_view().dom().contains(pre.start@)
                ||| exists|j: int|
                    0 <= j < pre.queue@.len() && (#[trigger] pre.queue@[j]).0@ == pre.start@
            }),
            forall|j: int|
                0 <= j < pre.queue@.len() - 1 ==> (#[trigger] self.queue@[j]) == pre.queue@[j],
            self.queue@.len() >= pre.queue@.len() - 1,
        ensures
            ({
                ||| self.result.map_view().dom().contains(self.start@)
                ||| exists|j: int|
                    0 <= j < self.queue@.len() && (#[trigger] self.queue@[j]).0@ == self.start@
            }),
    {
        if !self.result.map_view().dom().contains(self.start@) {
            assert(!pre.result.map_view().dom().contains(pre.start@));
            let j = choose|j: int|
                0 <= j < pre.queue@.len() && (#[trigger] pre.queue@[j]).0@ == pre.start@;
            if j == pre.queue@.len() - 1 {
                assert(pre.start@ == x);
            } else {
                assert(self.queue@[j].0@ == self.start@);
            }
        }
    }

    /// After dropping an already-recorded worklist entry, the target is
    /// still tracked and the invariant holds.
    proof fn lemma_after_pop(
        &self,
        pre: ResolveSession,
        pkgs: Seq<PackageView>,
        published: Map<Seq<char>, VersionView>,
        x: Seq<char>,
    )
        requires
            pre.session_wf(pkgs, published),
            pre.awaiting is Nothing,
            pre.queue@.len() > 0,
            pre.queue@.last().0@ == x,
            self.result == pre.result,
            self.awaiting == pre.awaiting,
            self.start == pre.start,
            self.queue@ == pre.queue@.drop_last(),
            self.result.map_view().dom().contains(x),
        ensures
            self.session_wf(pkgs, published),
    {
        assert forall|j: int| 0 <= j < self.queue@.len() implies is_publishable_member(
            pkgs,
            (#[trigger] self.queue@[j]).0@,
        ) by {
            assert(self.queue@[j] == pre.queue@[j]);
        }
        if !self.result.map_view().dom().contains(self.start@) {
            let j = choose|j: int|
                0 <= j < pre.queue@.len() && (#[trigger] pre.queue@[j]).0@ == pre.start@;
            if j == pre.queue@.len() - 1 {
                assert(pre.start@ == x);
            } else {
                assert(self.queue@[j].0@ == self.start@);
            }
        }
    }
}

/// Decides whether `name` names a publishable workspace member.
pub fn is_publishable_member_exec(packages: &Vec<Package>, name: &String) -> (r: bool)
    ensures
        r == is_publishable_member(packages.deep_view(), name@),
{
    let mut i: usize = 0;
    while i < packages.len()
        invariant
            i <= packages.len(),
            forall|j: int|
                0 <= j < i ==> !((#[trigger] packages.deep_view()[j]).name == name@
                    && can_publish_spec(packages.deep_view()[j])),
        decreases packages.len() - i,
    {
        proof {
            assert(packages.deep_view()[i as int] == packages@[i as int]@);
        }
        if packages[i].name == *name {
            if can_publish(&packages[i]) {
                return true;
            }
        }
        i = i + 1;
    }
    false
}

/// Lists exactly the publishable packages that declare a direct dependency
/// on `name`, by name, in workspace order.
pub fn direct_dependants(packages: &Vec<Package>, name: &String) -> (r: Vec<String>)
    ensures
        r.deep_view() == dependant_names(packages.deep_view(), name@),
        forall|j: int|
            0 <= j < r@.len() ==> is_publishable_member(
                packages.deep_view(),
                (#[trigger] r@[j])@,
            ),
{
    let ghost pkgs = packages.deep_view();
    let ghost pred = |p: PackageView| can_publish_spec(p) && depends_on(p, name@);
    let ghost to_name = |p: PackageView| p.name;
    let mut out: Vec<String> = Vec::new();
    let mut i: usize = 0;
    proof {
        reveal(Seq::filter);
        assert(out.deep_view() =~= pkgs.take(0).filter(pred).map_values(to_name));
    }
    while i < packages.len()
        invariant
            pkgs == packages.deep_view(),
            i <= packages.len(),
            pred == (|p: PackageView| can_publish_spec(p) && depends_on(p, name@)),
            to_name == (|p: PackageView| p.name),
            out.deep_view() == pkgs.take(i as int).filter(pred).map_values(to_name),
            forall|j: int|
                0 <= j < out@.len() ==> is_publishable_member(pkgs, (#[trigger] out@[j])@),
        decreases packages.len() - i,
    {
        let ghost prefix = pkgs.take(i as int);
        let ghost next = pkgs.take(i as int + 1);
        proof {
            reveal(Seq::filter);
            assert(next.drop_last() =~= prefix);
            assert(next.last() == pkgs[i as int]);
            assert(pkgs[i as int] == packages@[i as int]@);
        }
        let is_candidate = can_publish(&packages[i]);
        if is_candidate && has_dependency_on(&packages[i], name) {
            let ghost out_before = out.deep_view();
            out.push(packages[i].name.clone());
            proof {
                assert forall|j: int| 0 <= j < out@.len() implies out.deep_view()[j]
                    == out_before.push(pkgs[i as int].name)[j] by {
                    assert(out.deep_view()[j] == out@[j]@);
                }
                assert(out.deep_view() =~= out_before.push(pkgs[i as int].name));
                assert(next.filter(pred) == prefix.filter(pred).push(next.last()));
                assert(next.filter(pred).map_values(to_name) =~= prefix.filter(pred).map_values(
                    to_name,
                ).push(pkgs[i as int].name));
                assert(is_publishable_member(pkgs, pkgs[i as int].name));
                assert(out@[out@.len() - 1]@ == pkgs[i as int].name);
            }
        } else {
            proof {
                assert(next.filter(pred) == prefix.filter(pred));
            }
        }
        i = i + 1;
    }
    proof {
        assert(pkgs.take(packages@.len() as int) =~= pkgs);
    }
    out
}

/// Keeps, in order, the given names that are publishable workspace members;
/// anything else the operator typed is dropped.
fn keep_members(packages: &Vec<Package>, names: &Vec<String>) -> (r: Vec<String>)
    ensures
        r.deep_view() == names.deep_view().filter(
            |n: Seq<char>| is_publishable_member(packages.deep_view(), n),
        ),
        forall|j: int|
            0 <= j < r@.len() ==> is_publishable_member(
                packages.deep_view(),
                (#[trigger] r@[j])@,
            ),
{
    let ghost pkgs = packages.deep_view();
    let ghost pred = |n: Seq<char>| is_publishable_member(pkgs, n);
    let mut out: Vec<String> = Vec::new();
    let mut i: usize = 0;
    proof {
        reveal(Seq::filter);
        assert(out.deep_view() =~= names.deep_view().take(0).filter(pred));
    }
    while i < names.len()
        invariant
            pkgs == packages.deep_view(),
            i <= names.len(),
            pred == (|n: Seq<char>| is_publishable_member(pkgs, n)),
            out.deep_view() == names.deep_view().take(i as int).filter(pred),
            forall|j: int|
                0 <= j < out@.len() ==> is_publishable_member(pkgs, (#[trigger] out@[j])@),
        decreases names.len() - i,
    {
        let ghost prefix = names.deep_view().take(i as int);
        let ghost next = names.deep_view().take(i as int + 1);
        proof {
            reveal(Seq::filter);
            assert(next.drop_last() =~= prefix);
            assert(next.last() == names.deep_view()[i as int]);
            assert(names.deep_view()[i as int] == names@[i as int]@);
        }
        if is_publishable_member_exec(packages, &names[i]) {
            let ghost out_before = out.deep_view();
            out.push(names[i].clone());
            proof {
                assert forall|j: int| 0 <= j < out@.len() implies out.deep_view()[j]
                    == out_before.push(names.deep_view()[i as int])[j] by {
                    assert(out.deep_view()[j] == out@[j]@);
                }
                assert(out.deep_view() =~= out_before.push(names.deep_view()[i as int]));
                assert(next.filter(pred) == prefix.filter(pred).push(next.last()));
            }
        } else {
            proof {
                assert(next.filter(pred) == prefix.filter(pred));
            }
        }
        i = i + 1;
    }
    proof {
        assert(names.deep_view().take(names@.len() as int) =~= names.deep_view());
    }
    out
}

} // verus!
