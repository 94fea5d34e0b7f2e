use vstd::prelude::*;

verus! {

/// A resolved, canonical directory path, held as its component names
/// in order from the root.
#[derive(Debug)]
pub struct RootPath {
    pub components: Vec<String>,
}

impl View for RootPath {
    type V = Seq<Seq<char>>;

    open spec fn view(&self) -> Seq<Seq<char>> {
        self.components@.map_values(|s: String| s@)
    }
}

impl RootPath {
    pub fn new(components: Vec<String>) -> (r: Self)
        ensures
            r.components@ == components@,
    {
        Self { components }
    }

    /// A fresh path with the same components.
    pub fn cloned(&self) -> (r: Self)
        ensures
            r@ == self@,
    {
        let mut components: Vec<String> = Vec::new();
        let mut i: usize = 0;
        while i < self.components.len()
            invariant
                0 <= i <= self.components.len(),
                components@.len() == i,
                forall|k: int| 0 <= k < i ==> components@[k]@ == self.components@[k]@,
            decreases self.components.len() - i,
        {
            components.push(self.components[i].clone());
            i = i + 1;
        }
        let r = Self { components };
        proof {
            assert(r@ =~= self@);
        }
        r
    }
}

/// One path is an ancestor of (or equal to) another when its
/// components are a prefix of the other's.
#[verifier::opaque]
pub open spec fn is_path_prefix(a: Seq<Seq<char>>, b: Seq<Seq<char>>) -> bool {
    a.len() <= b.len() && a == b.take(a.len() as int)
}

/// Two paths are nested when either is a prefix of the other; equal
/// paths count as nested.
pub open spec fn nested(a: Seq<Seq<char>>, b: Seq<Seq<char>>) -> bool {
    is_path_prefix(a, b) || is_path_prefix(b, a)
}

/// Whether two paths have exactly the same components.
pub fn path_eq(a: &RootPath, b: &RootPath) -> (r: bool)
    ensures
        r <==> a@ == b@,
{
    if a.components.len() != b.components.len() {
        proof {
            assert(a@.len() != b@.len());
        }
        return false;
    }
    let mut i: usize = 0;
    while i < a.components.len()
        invariant
            0 <= i <= a.components.len(),
            a.components.len() == b.components.len(),
            forall|k: int| 0 <= k < i ==> a@[k] == b@[k],
        decreases a.components.len() - i,
    {
        if !(a.components[i] == b.components[i]) {
            proof {
                assert(a@[i as int] != b@[i as int]);
            }
            return false;
        }
        i = i + 1;
    }
    proof {
        assert(a@ =~= b@);
    }
    true
}

/// Whether `a` starts with `b`: every component of `b` is the matching
/// component of `a`, so `b` names `a` itself or one of its ancestors.
pub fn path_starts_with(a: &RootPath, b: &RootPath) -> (r: bool)
    ensures
        r <==> is_path_prefix(b@, a@),
{
    proof {
        reveal(is_path_prefix);
    }
    if b.components.len() > a.components.len() {
        return false;
    }
    let mut i: usize = 0;
    while i < b.components.len()
        invariant
            0 <= i <= b.components.len(),
            b.components.len() <= a.components.len(),
            forall|k: int| 0 <= k < i ==> b@[k] == a@[k],
        decreases b.components.len() - i,
    {
        if !(b.components[i] == a.components[i]) {
            proof {
                reveal(is_path_prefix);
                assert(b@[i as int] != a@.take(b@.len() as int)[i as int]);
            }
            return false;
        }
        i = i + 1;
    }
    proof {
        reveal(is_path_prefix);
        assert(b@ =~= a@.take(b@.len() as int));
    }
    true
}

/// One configured root before validation: the resolved path, and
/// whether it names an existing directory.
#[derive(Debug)]
pub struct CandidateRoot {
    pub path: RootPath,
    pub exists: bool,
}

/// A non-fatal remark of validation: a configured root that does not
/// exist and was dropped, or an exact duplicate of which one copy was
/// kept.
#[derive(Debug)]
pub enum Notice {
    Missing { path: RootPath },
    Duplicate { path: RootPath },
}

/// The fatal finding of validation: two configured roots are nested,
/// one an ancestor of the other. `offered` is the root whose arrival
/// exposed the conflict, `kept` the one already accepted.
#[derive(Debug)]
pub struct NestedConflict {
    pub offered: RootPath,
    pub kept: RootPath,
}

/// Two distinct configured entries that both exist and name nested,
/// unequal paths: the configuration fault that validation must refuse.
pub open spec fn proper_conflict(a: CandidateRoot, b: CandidateRoot) -> bool {
    a.exists && b.exists && nested(a.path@, b.path@) && a.path@ != b.path@
}

/// Whether some pair of configured entries conflicts.
pub open spec fn conflict_exists(list: Seq<CandidateRoot>) -> bool {
    exists|i: int, j: int| 0 <= i < j < list.len() && #[trigger] proper_conflict(list[i], list[j])
}

/// How a new root relates to the roots already kept: fresh, an exact
/// twin of a kept root, or nested with a kept root.
pub enum KeptCheck {
    Fresh,
    Twin { at: usize },
    Clash { at: usize },
}

/// Scan the kept roots for a newly offered one: report a nesting
/// clash, an exact twin, or that the root is fresh. While the kept
/// roots are pairwise non-nested, a twin among them rules any proper
/// clash out.
fn check_against_kept(kept: &Vec<RootPath>, cur: &RootPath) -> (r: KeptCheck)
    requires
        forall|x: int, y: int| 0 <= x < y < kept@.len() ==> !nested(kept@[x]@, kept@[y]@),
    ensures
        match r {
            KeptCheck::Fresh => forall|x: int|
                0 <= x < kept@.len() ==> !nested((#[trigger] kept@[x])@, cur@),
            KeptCheck::Twin { at } => at < kept@.len() && kept@[at as int]@ == cur@
                && forall|x: int|
                0 <= x < kept@.len() ==> !(nested((#[trigger] kept@[x])@, cur@) && kept@[x]@
                    != cur@),
            KeptCheck::Clash { at } => at < kept@.len() && nested(kept@[at as int]@, cur@)
                && kept@[at as int]@ != cur@,
        },
{
    let mut i: usize = 0;
    while i < kept.len()
        invariant
            0 <= i <= kept.len(),
            forall|x: int, y: int| 0 <= x < y < kept@.len() ==> !nested(kept@[x]@, kept@[y]@),
            forall|x: int| 0 <= x < i ==> !nested((#[trigger] kept@[x])@, cur@),
        decreases kept.len() - i,
    {
        if path_eq(&kept[i], cur) {
            proof {
                let ghost di = i as int;
                assert forall|x: int|
                    0 <= x < kept@.len() implies !(nested((#[trigger] kept@[x])@, cur@)
                    && kept@[x]@ != cur@) by {
                    if x != di && nested(kept@[x]@, cur@) {
                        assert(nested(kept@[x]@, kept@[di]@));
                        if x < di {
                            assert(!nested(kept@[x]@, kept@[di]@));
                        } else {
                            assert(!nested(kept@[di]@, kept@[x]@));
                        }
                    }
                }
                assert(kept@[di]@ == cur@);
            }
            return KeptCheck::Twin { at: i };
        } else if path_starts_with(&kept[i], cur) || path_starts_with(cur, &kept[i]) {
            return KeptCheck::Clash { at: i };
        }
        i = i + 1;
    }
    KeptCheck::Fresh
}

/// Validate a configured root list: drop the entries that do not
/// exist, keep one copy of exact duplicates, and refuse the whole
/// configuration if any two existing entries are nested. On success
/// the kept roots are pairwise non-nested — in particular pairwise
/// distinct — and are exactly the distinct existing inputs.
/// The existing input entry `m` has a kept root with its path.
pub open spec fn represented(list: Seq<CandidateRoot>, kept: Seq<RootPath>, m: int) -> bool {
    exists|x: int| 0 <= x < kept.len() && (#[trigger] kept[x])@ == list[m].path@
}

/// The kept root `x` stems from some existing input entry.
pub open spec fn covered(list: Seq<CandidateRoot>, kept: Seq<RootPath>, x: int) -> bool {
    exists|m: int| 0 <= m < list.len() && (#[trigger] list[m]).exists && list[m].path@ == kept[x]@
}

/// From the validation loop's closing state — every kept root tied to
/// its source entry, every existing entry tied to its representative,
/// and no conflicting pair — the validator's promises follow.
proof fn lemma_validate_post(
    list: Seq<CandidateRoot>,
    kept: Seq<RootPath>,
    src: Seq<int>,
    rep: Seq<int>,
)
    requires
        src.len() == kept.len(),
        rep.len() == list.len(),
        forall|x: int|
            0 <= x < kept.len() ==> 0 <= #[trigger] src[x] < list.len() && list[src[x]].exists
                && list[src[x]].path@ == kept[x]@,
        forall|m: int|
            0 <= m < list.len() && (#[trigger] list[m]).exists ==> 0 <= rep[m] < kept.len()
                && kept[rep[m]]@ == list[m].path@,
        forall|m: int, n: int| 0 <= m < n < list.len() ==> !proper_conflict(list[m], list[n]),
    ensures
        !conflict_exists(list),
        forall|m: int|
            0 <= m < list.len() && (#[trigger] list[m]).exists ==> represented(list, kept, m),
        forall|x: int| 0 <= x < kept.len() ==> #[trigger] covered(list, kept, x),
{
    assert(!conflict_exists(list)) by {
        if conflict_exists(list) {
            let (i, j) = choose|i: int, j: int|
                0 <= i < j < list.len() && #[trigger] proper_conflict(list[i], list[j]);
            assert(!proper_conflict(list[i], list[j]));
        }
    }
    assert forall|m: int|
        0 <= m < list.len() && (#[trigger] list[m]).exists implies represented(list, kept, m) by {
        let x = rep[m];
        assert(0 <= x < kept.len() && (kept[x])@ == list[m].path@);
    }
    assert forall|x: int| 0 <= x < kept.len() implies #[trigger] covered(list, kept, x) by {
        let m = src[x];
        assert(0 <= m < list.len() && list[m].exists && list[m].path@ == kept[x]@);
    }
}

#[verifier::rlimit(30)]
pub fn validate(list: &Vec<CandidateRoot>) -> (r: Result<(Vec<RootPath>, Vec<Notice>), NestedConflict>)
    ensures
        match r {
            Ok(ok) => {
                &&& !conflict_exists(list@)
                &&& forall|x: int, y: int|
                    0 <= x < y < ok.0@.len() ==> !nested(ok.0@[x]@, ok.0@[y]@)
                &&& forall|m: int|
                    0 <= m < list@.len() && (#[trigger] list@[m]).exists ==> represented(
                        list@,
                        ok.0@,
                        m,
                    )
                &&& forall|x: int| 0 <= x < ok.0@.len() ==> #[trigger] covered(list@, ok.0@, x)
            },
            Err(c) => {
                &&& conflict_exists(list@)
                &&& nested(c.offered@, c.kept@)
                &&& c.offered@ != c.kept@
            },
        },
{
    let mut kept: Vec<RootPath> = Vec::new();
    let mut notices: Vec<Notice> = Vec::new();
    // for each kept root, the input entry it came from; for each input
    // entry seen, the kept root that represents it (or -1)
    let ghost mut src: Seq<int> = Seq::empty();
    let ghost mut rep: Seq<int> = Seq::empty();
    let mut k: usize = 0;
    while k < list.len()
        invariant
            0 <= k <= list.len(),
            src.len() == kept@.len(),
            rep.len() == k,
            // the kept roots are pairwise non-nested
            forall|x: int, y: int| 0 <= x < y < kept@.len() ==> !nested(kept@[x]@, kept@[y]@),
            // every kept root came from an existing entry seen so far
            forall|x: int|
                0 <= x < kept@.len() ==> 0 <= #[trigger] src[x] < k && list@[src[x]].exists
                    && list@[src[x]].path@ == kept@[x]@,
            // every existing entry seen so far has its representative
            forall|m: int|
                0 <= m < k && (#[trigger] list@[m]).exists ==> 0 <= rep[m] < kept@.len()
                    && kept@[rep[m]]@ == list@[m].path@,
            // no conflict among the entries seen so far
            forall|m: int, n: int| 0 <= m < n < k ==> !proper_conflict(list@[m], list@[n]),
        decreases list.len() - k,
    {
        if !list[k].exists {
            notices.push(Notice::Missing { path: list[k].path.cloned() });
            proof {
                rep = rep.push(-1);
            }
        } else {
            match check_against_kept(&kept, &list[k].path) {
                KeptCheck::Clash { at } => {
                    let c = NestedConflict {
                        offered: list[k].path.cloned(),
                        kept: kept[at].cloned(),
                    };
                    proof {
                        let m = src[at as int];
                        assert(proper_conflict(list@[m], list@[k as int]));
                    }
                    return Err(c);
                },
                KeptCheck::Twin { at } => {
                    proof {
                        assert forall|m: int| 0 <= m < k implies !proper_conflict(
                            list@[m],
                            list@[k as int],
                        ) by {
                            if list@[m].exists {
                                let x = rep[m];
                                assert(!(nested((kept@[x])@, list@[k as int].path@) && kept@[x]@
                                    != list@[k as int].path@));
                            }
                        }
                        rep = rep.push(at as int);
                    }
                    notices.push(Notice::Duplicate { path: list[k].path.cloned() });
                },
                KeptCheck::Fresh => {
                    proof {
                        assert forall|m: int| 0 <= m < k implies !proper_conflict(
                            list@[m],
                            list@[k as int],
                        ) by {
                            if list@[m].exists {
                                let x = rep[m];
                                assert(!nested((kept@[x])@, list@[k as int].path@));
                            }
                        }
                    }
                    kept.push(list[k].path.cloned());
                    proof {
                        src = src.push(k as int);
                        rep = rep.push(kept@.len() - 1);
                        assert forall|x: int, y: int|
                            0 <= x < y < kept@.len() implies !nested(kept@[x]@, kept@[y]@) by {
                            if y == kept@.len() - 1 {
                                assert(!nested((kept@[x])@, list@[k as int].path@));
                                assert(kept@[y]@ == list@[k as int].path@);
                            }
                        }
                    }
                },
            }
        }
        k = k + 1;
    }
    proof {
        lemma_validate_post(list@, kept@, src, rep);
    }
    Ok((kept, notices))
}

} // verus!
