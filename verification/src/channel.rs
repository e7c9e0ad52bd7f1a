//! Out-of-band resolution of pending permission confirmations and tool
//! results, keyed by correlation id. An external actor may resolve an id at
//! most once; resolving an unknown or already-consumed id is accepted and has
//! no effect.

use vstd::prelude::*;

verus! {

/// What kind of principal a permission decision is about.
#[derive(Clone, Copy, Debug, PartialEq, Eq, Structural)]
pub enum PrincipalType {
    Tool,
    Extension,
}

/// The principal assumed when a confirmation request does not name one.
pub fn default_principal_type() -> (p: PrincipalType)
    ensures
        p == PrincipalType::Tool,
{
    PrincipalType::Tool
}

/// A permission decision supplied by an external actor.
#[derive(Clone, Copy, Debug, PartialEq, Eq, Structural)]
pub enum Permission {
    AlwaysAllow,
    AllowOnce,
    DenyOnce,
}

/// A request to resolve a pending permission confirmation.
#[derive(Clone, Debug, PartialEq, Eq)]
pub struct PermissionConfirmationRequest {
    pub id: String,
    pub principal_type: PrincipalType,
    pub action: String,
}

/// The decision named by an action string. Anything unrecognised defaults to
/// `DenyOnce`: an unmapped action fails closed rather than erroring.
pub open spec fn spec_permission_from_action(action: Seq<char>) -> Permission {
    if action == "always_allow"@ {
        Permission::AlwaysAllow
    } else if action == "allow_once"@ {
        Permission::AllowOnce
    } else {
        Permission::DenyOnce
    }
}

/// Map an action string to a permission decision, fail-closed.
pub fn permission_from_action(action: &str) -> (p: Permission)
    ensures
        p == spec_permission_from_action(action@),
{
    if action.eq("always_allow") {
        Permission::AlwaysAllow
    } else if action.eq("allow_once") {
        Permission::AllowOnce
    } else {
        Permission::DenyOnce
    }
}

/// A submitted tool result: success or failure, carrying the tool's output
/// or the failure reason.
#[derive(Clone, Debug, PartialEq, Eq)]
pub enum ToolResultPayload {
    Success { output: String },
    Error { reason: String },
}

/// One pending entry: the correlation id and, once resolved, the value.
struct PendingEntry<T> {
    id: String,
    resolution: Option<T>,
}

/// An arena of pending requests keyed by correlation id.
///
/// `register` inserts a fresh pending id; `resolve` stores a value for it
/// exactly once; `take` hands the value to the waiting loop and removes the
/// entry. At most one outstanding resolver exists per id.
pub struct PendingArena<T> {
    entries: Vec<PendingEntry<T>>,
}

impl<T> View for PendingArena<T> {
    type V = Map<Seq<char>, Option<T>>;

    closed spec fn view(&self) -> Map<Seq<char>, Option<T>> {
        Map::new(
            |id: Seq<char>| exists|i: int| 0 <= i < self.entries@.len() && self.entries@[i].id@ == id,
            |id: Seq<char>|
                {
                    let i = choose|i: int|
                        0 <= i < self.entries@.len() && self.entries@[i].id@ == id;
                    self.entries@[i].resolution
                },
        )
    }
}

/// What `resolve` does to the arena's map: an id that is present and still
/// pending becomes resolved with the supplied value; any other id leaves the
/// map unchanged.
pub open spec fn spec_resolve<T>(
    m: Map<Seq<char>, Option<T>>,
    id: Seq<char>,
    value: T,
) -> Map<Seq<char>, Option<T>> {
    if m.contains_key(id) && m[id] is None {
        m.insert(id, Some(value))
    } else {
        m
    }
}

impl<T> PendingArena<T> {
    /// Each id occurs at most once among the entries.
    pub closed spec fn well_formed(&self) -> bool {
        forall|i: int, j: int|
            0 <= i < j < self.entries@.len() ==> self.entries@[i].id@ != self.entries@[j].id@
    }

    /// An empty arena.
    pub fn new() -> (a: Self)
        ensures
            a.well_formed(),
            a@ =~= Map::<Seq<char>, Option<T>>::empty(),
    {
        let a = PendingArena { entries: Vec::new() };
        proof {
            assert forall|id: Seq<char>| !a@.contains_key(id) by {}
        }
        a
    }

    fn find(&self, id: &str) -> (r: Option<usize>)
        requires
            self.well_formed(),
        ensures
            match r {
                Some(i) => i < self.entries@.len() && self.entries@[i as int].id@ == id@,
                None => !self@.contains_key(id@),
            },
    {
        let mut i: usize = 0;
        while i < self.entries.len()
            invariant
                self.well_formed(),
                i <= self.entries@.len(),
                forall|j: int| 0 <= j < i ==> self.entries@[j].id@ != id@,
            decreases self.entries@.len() - i,
        {
            if self.entries[i].id.as_str().eq(id) {
                return Some(i);
            }
            i += 1;
        }
        None
    }

    /// Register a fresh pending id. An id already present is left alone: the
    /// earlier registration keeps its sole resolver.
    pub fn register(&mut self, id: String)
        requires
            old(self).well_formed(),
        ensures
            final(self).well_formed(),
            final(self)@ =~= if old(self)@.contains_key(id@) {
                old(self)@
            } else {
                old(self)@.insert(id@, None)
            },
    {
        let found = self.find(id.as_str());
        match found {
            Some(_) => {
                proof {
                    assert(self@.contains_key(id@));
                }
            },
            None => {
                let ghost pre = *self;
                self.entries.push(PendingEntry { id, resolution: None });
                proof {
                    let n = pre.entries@.len() as int;
                    assert forall|x: Seq<char>| #[trigger]
                        final(self)@.contains_key(x) <==> (pre@.contains_key(x) || x == id@) by {
                        if final(self)@.contains_key(x) {
                            let i = choose|i: int|
                                0 <= i < final(self).entries@.len()
                                    && final(self).entries@[i].id@ == x;
                            if i < n {
                                assert(pre.entries@[i].id@ == x);
                            }
                        }
                        if pre@.contains_key(x) {
                            let i = choose|i: int|
                                0 <= i < pre.entries@.len() && pre.entries@[i].id@ == x;
                            assert(final(self).entries@[i].id@ == x);
                        }
                        if x == id@ {
                            assert(final(self).entries@[n].id@ == x);
                        }
                    }
                    assert forall|x: Seq<char>| final(self)@.contains_key(x) implies #[trigger] final(self)@[x] == pre@.insert(id@, None)[x] by {
                        let i = choose|i: int|
                            0 <= i < final(self).entries@.len() && final(self).entries@[i].id@ == x;
                        if x == id@ {
                            assert(final(self).entries@[i].resolution is None);
                        } else {
                            assert(i < n);
                            assert(pre.entries@[i].id@ == x);
                            assert(pre@.contains_key(x));
                            let j = choose|j: int|
                                0 <= j < pre.entries@.len() && pre.entries@[j].id@ == x;
                            assert(j == i);
                        }
                    }
                }
            },
        }
    }

    /// Resolve a pending id with a value. The second resolution of an id, and
    /// the resolution of an id never registered, are accepted and change
    /// nothing; the result says whether this call was the effective one.
    pub fn resolve(&mut self, id: &str, value: T) -> (effective: bool)
        requires
            old(self).well_formed(),
        ensures
            final(self).well_formed(),
            final(self)@ =~= spec_resolve(old(self)@, id@, value),
            effective == (old(self)@.contains_key(id@) && old(self)@[id@] is None),
    {
        let found = self.find(id);
        match found {
            Some(i) => {
                let ghost pre = *self;
                proof {
                    let j = choose|j: int|
                        0 <= j < pre.entries@.len() && pre.entries@[j].id@ == id@;
                    assert(j == i as int);
                    assert(pre@[id@] == pre.entries@[i as int].resolution);
                }
                if self.entries[i].resolution.is_some() {
                    proof {
                        assert(pre@.contains_key(id@) && !(pre@[id@] is None));
                    }
                    false
                } else {
                    self.entries[i].resolution = Some(value);
                    proof {
                        assert forall|x: Seq<char>| #[trigger]
                            final(self)@.contains_key(x) <==> pre@.contains_key(x) by {
                            if final(self)@.contains_key(x) {
                                let k = choose|k: int|
                                    0 <= k < final(self).entries@.len()
                                        && final(self).entries@[k].id@ == x;
                                assert(pre.entries@[k].id@ == x);
                            }
                            if pre@.contains_key(x) {
                                let k = choose|k: int|
                                    0 <= k < pre.entries@.len() && pre.entries@[k].id@ == x;
                                assert(final(self).entries@[k].id@ == x);
                            }
                        }
                        assert forall|x: Seq<char>| final(self)@.contains_key(x) implies #[trigger] final(self)@[x] == spec_resolve(pre@, id@, value)[x] by {
                            let k = choose|k: int|
                                0 <= k < final(self).entries@.len()
                                    && final(self).entries@[k].id@ == x;
                            if x == id@ {
                                assert(k == i as int);
                            } else {
                                assert(pre.entries@[k].id@ == x);
                                let j = choose|j: int|
                                    0 <= j < pre.entries@.len() && pre.entries@[j].id@ == x;
                                assert(j == k);
                            }
                        }
                    }
                    true
                }
            },
            None => false,
        }
    }

    /// Take the resolution of an id out of the arena, if one has arrived.
    /// The entry is consumed: a later `resolve` of the same id is a no-op.
    pub fn take(&mut self, id: &str) -> (r: Option<T>)
        requires
            old(self).well_formed(),
        ensures
            final(self).well_formed(),
            match r {
                Some(_) => old(self)@.contains_key(id@) && old(self)@[id@] == Some(r->0)
                    && final(self)@ =~= old(self)@.remove(id@),
                None => final(self)@ =~= old(self)@ && (!old(self)@.contains_key(id@)
                    || old(self)@[id@] is None),
            },
    {
        let found = self.find(id);
        match found {
            Some(i) => {
                let ghost pre = *self;
                proof {
                    let j = choose|j: int|
                        0 <= j < pre.entries@.len() && pre.entries@[j].id@ == id@;
                    assert(j == i as int);
                    assert(pre@[id@] == pre.entries@[i as int].resolution);
                }
                if self.entries[i].resolution.is_some() {
                    let entry = self.entries.remove(i);
                    proof {
                        assert forall|x: Seq<char>| #[trigger]
                            final(self)@.contains_key(x) <==> (pre@.contains_key(x) && x != id@)
                            by {
                            if final(self)@.contains_key(x) {
                                let k = choose|k: int|
                                    0 <= k < final(self).entries@.len()
                                        && final(self).entries@[k].id@ == x;
                                let korig = if k < i as int {
                                    k
                                } else {
                                    k + 1
                                };
                                assert(pre.entries@[korig].id@ == x);
                            }
                            if pre@.contains_key(x) && x != id@ {
                                let k = choose|k: int|
                                    0 <= k < pre.entries@.len() && pre.entries@[k].id@ == x;
                                assert(k != i as int);
                                let knew = if k < i as int {
                                    k
                                } else {
                                    k - 1
                                };
                                assert(final(self).entries@[knew].id@ == x);
                            }
                        }
                        assert forall|x: Seq<char>| final(self)@.contains_key(x) implies #[trigger] final(self)@[x] == pre@.remove(id@)[x] by {
                            let k = choose|k: int|
                                0 <= k < final(self).entries@.len()
                                    && final(self).entries@[k].id@ == x;
                            let korig = if k < i as int {
                                k
                            } else {
                                k + 1
                            };
                            assert(pre.entries@[korig].id@ == x);
                            assert(pre@.contains_key(x));
                            let j = choose|j: int|
                                0 <= j < pre.entries@.len() && pre.entries@[j].id@ == x;
                            assert(j == korig);
                        }
                    }
                    entry.resolution
                } else {
                    None
                }
            },
            None => None,
        }
    }
}

/// Resolving an id twice is a no-op the second time: the state after the
/// second resolution is the state after the first, whatever value the second
/// call carried.
pub proof fn lemma_resolve_twice_no_op<T>(
    m: Map<Seq<char>, Option<T>>,
    id: Seq<char>,
    first: T,
    second: T,
)
    ensures
        spec_resolve(spec_resolve(m, id, first), id, second) == spec_resolve(m, id, first),
{
    if m.contains_key(id) && m[id] is None {
        assert(spec_resolve(m, id, first)[id] == Some(first));
    }
}

/// Resolving an id that is unknown, or no longer pending, has no observable
/// effect on the arena.
pub proof fn lemma_resolve_unknown_no_op<T>(m: Map<Seq<char>, Option<T>>, id: Seq<char>, value: T)
    requires
        !m.contains_key(id) || !(m[id] is None),
    ensures
        spec_resolve(m, id, value) == m,
{
}

} // verus!
