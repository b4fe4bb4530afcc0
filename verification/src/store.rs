use crate::attempt::{AttemptView, TwoFactorIncomplete};
use vstd::prelude::*;

verus! {

/// Whether record `a` carries the key (`u`, `d`).
pub open spec fn key_matches(a: AttemptView, u: Seq<char>, d: Seq<char>) -> bool {
    a.user_uuid == u && a.device_uuid == d
}

/// Whether two records carry the same (user, device) key.
pub open spec fn same_key(a: AttemptView, b: AttemptView) -> bool {
    key_matches(a, b.user_uuid, b.device_uuid)
}

/// Whether some record for the key (`u`, `d`) is present in `s`.
pub open spec fn has_key(s: Seq<AttemptView>, u: Seq<char>, d: Seq<char>) -> bool {
    exists|i: int| 0 <= i < s.len() && #[trigger] key_matches(s[i], u, d)
}

/// Primary-key uniqueness: no two records share a (user, device) key.
pub open spec fn distinct_keys(s: Seq<AttemptView>) -> bool {
    forall|i: int, j: int|
        #![trigger s[i], s[j]]
        0 <= i < s.len() && 0 <= j < s.len() && i != j ==> !same_key(s[i], s[j])
}

/// The first record in `s` with key (`u`, `d`), if any. Under `distinct_keys`
/// it is the only one.
pub open spec fn find_spec(s: Seq<AttemptView>, u: Seq<char>, d: Seq<char>) -> Option<AttemptView>
    decreases s.len(),
{
    if s.len() == 0 {
        None
    } else if key_matches(s[0], u, d) {
        Some(s[0])
    } else {
        find_spec(s.drop_first(), u, d)
    }
}

/// `s` with every record for the key (`u`, `d`) removed.
pub open spec fn remove_key_spec(s: Seq<AttemptView>, u: Seq<char>, d: Seq<char>) -> Seq<
    AttemptView,
> {
    s.filter(|a: AttemptView| !key_matches(a, u, d))
}

/// `s` with every record owned by user `u` removed.
pub open spec fn remove_user_spec(s: Seq<AttemptView>, u: Seq<char>) -> Seq<AttemptView> {
    s.filter(|a: AttemptView| a.user_uuid != u)
}

/// The records of `s` whose login time is strictly earlier than `t`.
pub open spec fn stale_before_spec(s: Seq<AttemptView>, t: int) -> Seq<AttemptView> {
    s.filter(|a: AttemptView| a.login_time < t)
}

/// How many records of `s` carry the key (`u`, `d`).
pub open spec fn count_key(s: Seq<AttemptView>, u: Seq<char>, d: Seq<char>) -> nat {
    s.filter(|a: AttemptView| key_matches(a, u, d)).len()
}

/// The mathematical image of a sequence of stored records.
pub open spec fn views_of(v: Seq<TwoFactorIncomplete>) -> Seq<AttemptView> {
    v.map_values(|r: TwoFactorIncomplete| r@)
}

pub proof fn lemma_views_of_push(v: Seq<TwoFactorIncomplete>, r: TwoFactorIncomplete)
    ensures
        views_of(v.push(r)) == views_of(v).push(r@),
{
    assert(views_of(v.push(r)) =~= views_of(v).push(r@));
}

/// `find_spec` returns a record exactly when one with that key is present,
/// and what it returns is such a record of `s`.
pub proof fn lemma_find_spec_characterizes(s: Seq<AttemptView>, u: Seq<char>, d: Seq<char>)
    ensures
        (find_spec(s, u, d) is Some) <==> has_key(s, u, d),
        find_spec(s, u, d) matches Some(a) ==> s.contains(a) && key_matches(a, u, d),
    decreases s.len(),
{
    if s.len() == 0 {
        assert(!has_key(s, u, d));
    } else if key_matches(s[0], u, d) {
        assert(has_key(s, u, d));
        assert(s.contains(s[0]));
    } else {
        let t = s.drop_first();
        lemma_find_spec_characterizes(t, u, d);
        if has_key(s, u, d) {
            let i = choose|i: int| 0 <= i < s.len() && #[trigger] key_matches(s[i], u, d);
            assert(i != 0);
            assert(t[i - 1] == s[i]);
            assert(key_matches(t[i - 1], u, d));
            assert(has_key(t, u, d));
        }
        if has_key(t, u, d) {
            let i = choose|i: int| 0 <= i < t.len() && #[trigger] key_matches(t[i], u, d);
            assert(s[i + 1] == t[i]);
            assert(key_matches(s[i + 1], u, d));
            assert(has_key(s, u, d));
        }
        if find_spec(s, u, d) is Some {
            let a = choose|a: AttemptView| find_spec(s, u, d) == Some(a);
            assert(t.contains(a));
            let j = choose|j: int| 0 <= j < t.len() && t[j] == a;
            assert(s[j + 1] == a);
            assert(s.contains(a));
        }
    }
}

/// Key uniqueness carries over to any contiguous slice.
pub proof fn lemma_distinct_subrange(s: Seq<AttemptView>, a: int, b: int)
    requires
        distinct_keys(s),
        0 <= a <= b <= s.len(),
    ensures
        distinct_keys(s.subrange(a, b)),
{
    let t = s.subrange(a, b);
    assert forall|i: int, j: int|
        0 <= i < t.len() && 0 <= j < t.len() && i != j implies !same_key(t[i], t[j]) by {
        assert(t[i] == s[a + i]);
        assert(t[j] == s[a + j]);
    }
}

/// Under key uniqueness, `find_spec` returns the record standing at any
/// index whose key matches.
pub proof fn lemma_find_spec_unique(s: Seq<AttemptView>, u: Seq<char>, d: Seq<char>, i: int)
    requires
        distinct_keys(s),
        0 <= i < s.len(),
        key_matches(s[i], u, d),
    ensures
        find_spec(s, u, d) == Some(s[i]),
    decreases s.len(),
{
    if i == 0 {
    } else {
        assert(!key_matches(s[0], u, d)) by {
            if key_matches(s[0], u, d) {
                assert(same_key(s[0], s[i]));
            }
        }
        let t = s.drop_first();
        lemma_distinct_subrange(s, 1, s.len() as int);
        assert(t == s.subrange(1, s.len() as int));
        assert(t[i - 1] == s[i]);
        lemma_find_spec_unique(t, u, d, i - 1);
    }
}

/// Appending a record whose key is absent preserves key uniqueness.
pub proof fn lemma_push_fresh_distinct(s: Seq<AttemptView>, a: AttemptView)
    requires
        distinct_keys(s),
        !has_key(s, a.user_uuid, a.device_uuid),
    ensures
        distinct_keys(s.push(a)),
{
    let t = s.push(a);
    assert forall|i: int, j: int|
        0 <= i < t.len() && 0 <= j < t.len() && i != j implies !same_key(t[i], t[j]) by {
        if i < s.len() && j < s.len() {
            assert(t[i] == s[i]);
            assert(t[j] == s[j]);
        } else if i == s.len() {
            assert(t[i] == a);
            assert(t[j] == s[j]);
            assert(!key_matches(s[j], a.user_uuid, a.device_uuid));
        } else {
            assert(t[j] == a);
            assert(t[i] == s[i]);
            assert(!key_matches(s[i], a.user_uuid, a.device_uuid));
        }
    }
}

/// One unfolding step of `filter` at the back of a sequence.
pub proof fn lemma_filter_push(
    s: Seq<AttemptView>,
    pred: spec_fn(AttemptView) -> bool,
    a: AttemptView,
)
    ensures
        s.push(a).filter(pred) == (if pred(a) {
            s.filter(pred).push(a)
        } else {
            s.filter(pred)
        }),
{
    reveal_with_fuel(Seq::filter, 2);
    assert(s.push(a).drop_last() =~= s);
    assert(s.push(a).last() == a);
}

/// Every record that `filter` keeps was present and satisfies the predicate.
pub proof fn lemma_filter_membership(s: Seq<AttemptView>, pred: spec_fn(AttemptView) -> bool)
    ensures
        forall|x: AttemptView| #[trigger]
            s.filter(pred).contains(x) ==> s.contains(x) && pred(x),
    decreases s.len(),
{
    reveal_with_fuel(Seq::filter, 2);
    if s.len() == 0 {
        assert(s.filter(pred) =~= Seq::<AttemptView>::empty());
    } else {
        let p = s.drop_last();
        let l = s.last();
        lemma_filter_membership(p, pred);
        lemma_filter_push(p, pred, l);
        assert(p.push(l) =~= s);
        assert forall|x: AttemptView| #[trigger]
            s.filter(pred).contains(x) implies s.contains(x) && pred(x) by {
            let f = s.filter(pred);
            let k = choose|k: int| 0 <= k < f.len() && f[k] == x;
            if pred(l) {
                assert(f == p.filter(pred).push(l));
                if k < p.filter(pred).len() {
                    assert(p.filter(pred).contains(x));
                    let m = choose|m: int| 0 <= m < p.len() && p[m] == x;
                    assert(s[m] == x);
                    assert(s.contains(x));
                } else {
                    assert(x == l);
                    assert(s[s.len() - 1] == x);
                    assert(s.contains(x));
                }
            } else {
                assert(f == p.filter(pred));
                assert(p.filter(pred).contains(x));
                let m = choose|m: int| 0 <= m < p.len() && p[m] == x;
                assert(s[m] == x);
                assert(s.contains(x));
            }
        }
    }
}

/// `filter` preserves key uniqueness.
pub proof fn lemma_filter_distinct(s: Seq<AttemptView>, pred: spec_fn(AttemptView) -> bool)
    requires
        distinct_keys(s),
    ensures
        distinct_keys(s.filter(pred)),
    decreases s.len(),
{
    reveal_with_fuel(Seq::filter, 2);
    if s.len() == 0 {
        assert(s.filter(pred) =~= Seq::<AttemptView>::empty());
    } else {
        let p = s.drop_last();
        let l = s.last();
        lemma_distinct_subrange(s, 0, s.len() - 1);
        assert(p == s.subrange(0, s.len() - 1));
        lemma_filter_distinct(p, pred);
        lemma_filter_push(p, pred, l);
        assert(p.push(l) =~= s);
        if pred(l) {
            assert(s.filter(pred) == p.filter(pred).push(l));
            lemma_filter_membership(p, pred);
            assert(!has_key(p.filter(pred), l.user_uuid, l.device_uuid)) by {
                if has_key(p.filter(pred), l.user_uuid, l.device_uuid) {
                    let f = p.filter(pred);
                    let i = choose|i: int|
                        0 <= i < f.len() && #[trigger] key_matches(
                            f[i],
                            l.user_uuid,
                            l.device_uuid,
                        );
                    assert(f.contains(f[i]));
                    assert(p.contains(f[i]));
                    let m = choose|m: int| 0 <= m < p.len() && p[m] == f[i];
                    assert(s[m] == f[i]);
                    assert(s[s.len() - 1] == l);
                    assert(same_key(s[m], s[s.len() - 1]));
                }
            }
            lemma_push_fresh_distinct(p.filter(pred), l);
        } else {
            assert(s.filter(pred) == p.filter(pred));
        }
    }
}

/// Under key uniqueness a key is stored exactly once, or not at all.
pub proof fn lemma_distinct_count(s: Seq<AttemptView>, u: Seq<char>, d: Seq<char>)
    requires
        distinct_keys(s),
    ensures
        count_key(s, u, d) == (if has_key(s, u, d) {
            1nat
        } else {
            0nat
        }),
    decreases s.len(),
{
    reveal_with_fuel(Seq::filter, 2);
    if s.len() == 0 {
        assert(s.filter(|a: AttemptView| key_matches(a, u, d)) =~= Seq::<AttemptView>::empty());
        assert(!has_key(s, u, d));
    } else {
        let p = s.drop_last();
        let l = s.last();
        lemma_distinct_subrange(s, 0, s.len() - 1);
        assert(p == s.subrange(0, s.len() - 1));
        lemma_distinct_count(p, u, d);
        lemma_filter_push(p, |a: AttemptView| key_matches(a, u, d), l);
        assert(p.push(l) =~= s);
        if has_key(p, u, d) {
            let i = choose|i: int| 0 <= i < p.len() && #[trigger] key_matches(p[i], u, d);
            assert(s[i] == p[i]);
            assert(has_key(s, u, d));
        }
        if key_matches(l, u, d) {
            assert(s[s.len() - 1] == l);
            assert(has_key(s, u, d));
            assert(!has_key(p, u, d)) by {
                if has_key(p, u, d) {
                    let i = choose|i: int| 0 <= i < p.len() && #[trigger] key_matches(p[i], u, d);
                    assert(same_key(s[i], s[s.len() - 1]));
                }
            }
        } else {
            if has_key(s, u, d) {
                let i = choose|i: int| 0 <= i < s.len() && #[trigger] key_matches(s[i], u, d);
                assert(i < p.len());
                assert(p[i] == s[i]);
                assert(has_key(p, u, d));
            }
        }
    }
}

/// The keyed record store: the persistence collaborator's contract — atomic
/// conditional insert, point lookup, keyed and bulk delete, range scan by
/// login time — realised in memory with primary-key uniqueness on
/// (user, device).
pub struct TwoFactorStore {
    records: Vec<TwoFactorIncomplete>,
}

impl View for TwoFactorStore {
    type V = Seq<AttemptView>;

    closed spec fn view(&self) -> Seq<AttemptView> {
        views_of(self.records@)
    }
}

/// A field-for-field copy of a stored record.
fn clone_attempt(r: &TwoFactorIncomplete) -> (c: TwoFactorIncomplete)
    ensures
        c@ == r@,
{
    TwoFactorIncomplete {
        user_uuid: r.user_uuid.clone(),
        device_uuid: r.device_uuid.clone(),
        device_name: r.device_name.clone(),
        device_type: r.device_type,
        login_time: r.login_time,
        ip_address: r.ip_address.clone(),
    }
}

impl TwoFactorStore {
    /// The store's invariant: the primary-key constraint holds.
    pub open spec fn wf(self) -> bool {
        distinct_keys(self@)
    }

    /// An empty store.
    pub fn new() -> (s: Self)
        ensures
            s.wf(),
            s@ == Seq::<AttemptView>::empty(),
    {
        let s = TwoFactorStore { records: Vec::new() };
        proof {
            assert(s@ =~= Seq::<AttemptView>::empty());
        }
        s
    }

    /// Point lookup by exact key.
    pub(crate) fn find_by_key(&self, u: &String, d: &String) -> (r: Option<TwoFactorIncomplete>)
        ensures
            match r {
                Some(rec) => find_spec(self@, u@, d@) == Some(rec@),
                None => find_spec(self@, u@, d@) is None,
            },
    {
        let ghost s = self@;
        let n = self.records.len();
        proof {
            assert(s.subrange(0, s.len() as int) =~= s);
        }
        for i in 0..n
            invariant
                n == self.records.len(),
                s == self@,
                find_spec(s, u@, d@) == find_spec(s.subrange(i as int, s.len() as int), u@, d@),
        {
            let ghost rest = s.subrange(i as int, s.len() as int);
            if self.records[i].user_uuid == *u && self.records[i].device_uuid == *d {
                proof {
                    assert(rest[0] == s[i as int]);
                    assert(key_matches(rest[0], u@, d@));
                }
                return Some(clone_attempt(&self.records[i]));
            }
            proof {
                assert(rest[0] == s[i as int]);
                assert(!key_matches(rest[0], u@, d@));
                assert(rest.drop_first() =~= s.subrange(i + 1 as int, s.len() as int));
            }
        }
        proof {
            assert(s.subrange(n as int, s.len() as int).len() == 0);
        }
        None
    }

    /// Atomic conditional insert: stores the record unless one with the same
    /// key already exists, in which case nothing changes. This is the
    /// uniqueness-enforcing write the anti-reset policy relies on.
    pub(crate) fn insert_if_absent(&mut self, rec: TwoFactorIncomplete)
        requires
            old(self).wf(),
        ensures
            final(self).wf(),
            final(self)@ == (if has_key(old(self)@, rec.user_uuid@, rec.device_uuid@) {
                old(self)@
            } else {
                old(self)@.push(rec@)
            }),
    {
        let existing = self.find_by_key(&rec.user_uuid, &rec.device_uuid);
        proof {
            lemma_find_spec_characterizes(self@, rec.user_uuid@, rec.device_uuid@);
        }
        if existing.is_none() {
            proof {
                lemma_views_of_push(self.records@, rec);
                lemma_push_fresh_distinct(self@, rec@);
            }
            self.records.push(rec);
        }
    }

    /// Atomic delete by exact key; removing an absent key changes nothing.
    pub(crate) fn delete_by_key(&mut self, u: &String, d: &String)
        requires
            old(self).wf(),
        ensures
            final(self).wf(),
            final(self)@ == remove_key_spec(old(self)@, u@, d@),
    {
        let ghost s = self@;
        let mut kept: Vec<TwoFactorIncomplete> = Vec::new();
        let n = self.records.len();
        proof {
            assert(views_of(kept@) =~= Seq::<AttemptView>::empty());
            assert(s.subrange(0, 0).filter(|a: AttemptView| !key_matches(a, u@, d@)) =~= Seq::<
                AttemptView,
            >::empty()) by {
                assert(s.subrange(0, 0) =~= Seq::<AttemptView>::empty());
                reveal_with_fuel(Seq::filter, 1);
            }
        }
        for i in 0..n
            invariant
                n == self.records.len(),
                s == self@,
                views_of(kept@) == s.subrange(0, i as int).filter(
                    |a: AttemptView| !key_matches(a, u@, d@),
                ),
        {
            let ghost pre = s.subrange(0, i as int);
            proof {
                assert(s.subrange(0, i + 1 as int) =~= pre.push(s[i as int]));
                lemma_filter_push(pre, |a: AttemptView| !key_matches(a, u@, d@), s[i as int]);
            }
            if !(self.records[i].user_uuid == *u && self.records[i].device_uuid == *d) {
                let c = clone_attempt(&self.records[i]);
                proof {
                    lemma_views_of_push(kept@, c);
                }
                kept.push(c);
            }
        }
        proof {
            assert(s.subrange(0, n as int) =~= s);
            lemma_filter_distinct(s, |a: AttemptView| !key_matches(a, u@, d@));
        }
        self.records = kept;
    }

    /// Atomic bulk delete of every record owned by one user.
    pub(crate) fn delete_by_user(&mut self, u: &String)
        requires
            old(self).wf(),
        ensures
            final(self).wf(),
            final(self)@ == remove_user_spec(old(self)@, u@),
    {
        let ghost s = self@;
        let mut kept: Vec<TwoFactorIncomplete> = Vec::new();
        let n = self.records.len();
        proof {
            assert(views_of(kept@) =~= Seq::<AttemptView>::empty());
            assert(s.subrange(0, 0).filter(|a: AttemptView| a.user_uuid != u@) =~= Seq::<
                AttemptView,
            >::empty()) by {
                assert(s.subrange(0, 0) =~= Seq::<AttemptView>::empty());
                reveal_with_fuel(Seq::filter, 1);
            }
        }
        for i in 0..n
            invariant
                n == self.records.len(),
                s == self@,
                views_of(kept@) == s.subrange(0, i as int).filter(
                    |a: AttemptView| a.user_uuid != u@,
                ),
        {
            let ghost pre = s.subrange(0, i as int);
            proof {
                assert(s.subrange(0, i + 1 as int) =~= pre.push(s[i as int]));
                lemma_filter_push(pre, |a: AttemptView| a.user_uuid != u@, s[i as int]);
            }
            if !(self.records[i].user_uuid == *u) {
                let c = clone_attempt(&self.records[i]);
                proof {
                    lemma_views_of_push(kept@, c);
                }
                kept.push(c);
            }
        }
        proof {
            assert(s.subrange(0, n as int) =~= s);
            lemma_filter_distinct(s, |a: AttemptView| a.user_uuid != u@);
        }
        self.records = kept;
    }

    /// Range scan: every record with `login_time` strictly earlier than `t`.
    /// Read-only; the caller decides what to delete afterwards.
    pub(crate) fn stale_before(&self, t: i64) -> (r: Vec<TwoFactorIncomplete>)
        ensures
            views_of(r@) == stale_before_spec(self@, t as int),
    {
        let ghost s = self@;
        let mut out: Vec<TwoFactorIncomplete> = Vec::new();
        let n = self.records.len();
        proof {
            assert(views_of(out@) =~= Seq::<AttemptView>::empty());
            assert(s.subrange(0, 0).filter(|a: AttemptView| a.login_time < t as int) =~= Seq::<
                AttemptView,
            >::empty()) by {
                assert(s.subrange(0, 0) =~= Seq::<AttemptView>::empty());
                reveal_with_fuel(Seq::filter, 1);
            }
        }
        for i in 0..n
            invariant
                n == self.records.len(),
                s == self@,
                views_of(out@) == s.subrange(0, i as int).filter(
                    |a: AttemptView| a.login_time < t as int,
                ),
        {
            let ghost pre = s.subrange(0, i as int);
            proof {
                assert(s.subrange(0, i + 1 as int) =~= pre.push(s[i as int]));
                lemma_filter_push(pre, |a: AttemptView| a.login_time < t as int, s[i as int]);
            }
            if self.records[i].login_time < t {
                let c = clone_attempt(&self.records[i]);
                proof {
                    lemma_views_of_push(out@, c);
                }
                out.push(c);
            }
        }
        proof {
            assert(s.subrange(0, n as int) =~= s);
        }
        out
    }
}

} // verus!
