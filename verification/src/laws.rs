use crate::attempt::{AttemptView, Config};
use crate::policy::{mark_complete_spec, mark_incomplete_spec};
use crate::store::{
    count_key, distinct_keys, find_spec, has_key, key_matches, lemma_distinct_count,
    lemma_filter_membership, lemma_find_spec_characterizes, lemma_find_spec_unique,
    lemma_push_fresh_distinct, remove_key_spec, remove_user_spec, stale_before_spec,
};
use vstd::prelude::*;

verus! {

/// Write-once: with the feature enabled and no record yet stored for the
/// key, marking it pending at `t1` and then again at a later `t2` — with any
/// other metadata — leaves the store exactly as after the first call, and
/// lookup returns the first call's record: `login_time` is `t1` and the
/// first call's `device_name`, `device_type` and `ip_address` are retained.
pub proof fn lemma_mark_pending_write_once(
    s: Seq<AttemptView>,
    cfg: Config,
    u: Seq<char>,
    d: Seq<char>,
    name1: Seq<char>,
    ty1: int,
    ip1: Seq<char>,
    t1: int,
    name2: Seq<char>,
    ty2: int,
    ip2: Seq<char>,
    t2: int,
)
    requires
        distinct_keys(s),
        !has_key(s, u, d),
        cfg.enabled_spec(),
        t1 < t2,
    ensures
        ({
            let s1 = mark_incomplete_spec(s, cfg, u, d, name1, ty1, ip1, t1);
            let s2 = mark_incomplete_spec(s1, cfg, u, d, name2, ty2, ip2, t2);
            &&& s2 == s1
            &&& find_spec(s2, u, d) == Some(
                AttemptView {
                    user_uuid: u,
                    device_uuid: d,
                    device_name: name1,
                    device_type: ty1,
                    login_time: t1,
                    ip_address: ip1,
                },
            )
        }),
{
    let a1 = AttemptView {
        user_uuid: u,
        device_uuid: d,
        device_name: name1,
        device_type: ty1,
        login_time: t1,
        ip_address: ip1,
    };
    let s1 = s.push(a1);
    assert(key_matches(s1[s.len() as int], u, d));
    assert(has_key(s1, u, d));
    lemma_push_fresh_distinct(s, a1);
    lemma_find_spec_unique(s1, u, d, s.len() as int);
}

/// Resolving always clears: with the feature enabled, after `mark_complete`
/// a lookup of the key finds nothing — whether or not a record existed.
pub proof fn lemma_mark_resolved_clears(
    s: Seq<AttemptView>,
    cfg: Config,
    u: Seq<char>,
    d: Seq<char>,
)
    requires
        cfg.enabled_spec(),
    ensures
        find_spec(mark_complete_spec(s, cfg, u, d), u, d) is None,
{
    let t = remove_key_spec(s, u, d);
    lemma_filter_membership(s, |a: AttemptView| !key_matches(a, u, d));
    assert(!has_key(t, u, d)) by {
        if has_key(t, u, d) {
            let i = choose|i: int| 0 <= i < t.len() && #[trigger] key_matches(t[i], u, d);
            assert(t.contains(t[i]));
        }
    }
    lemma_find_spec_characterizes(t, u, d);
}

/// With the feature disabled, `mark_incomplete` creates no row: the store is
/// unchanged, and in particular a key that was absent stays absent.
pub proof fn lemma_mark_pending_disabled_no_row(
    s: Seq<AttemptView>,
    cfg: Config,
    u: Seq<char>,
    d: Seq<char>,
    name: Seq<char>,
    ty: int,
    ip: Seq<char>,
    now: int,
)
    requires
        !cfg.enabled_spec(),
    ensures
        mark_incomplete_spec(s, cfg, u, d, name, ty, ip, now) == s,
        find_spec(s, u, d) is None ==> find_spec(
            mark_incomplete_spec(s, cfg, u, d, name, ty, ip, now),
            u,
            d,
        ) is None,
{
}

/// The stale scan is exact: it yields a record if and only if the store
/// holds it and its login time is strictly earlier than the threshold, and
/// the empty store yields the empty sequence.
pub proof fn lemma_find_stale_before_exact(s: Seq<AttemptView>, t: int)
    ensures
        forall|a: AttemptView| #[trigger]
            stale_before_spec(s, t).contains(a) <==> (s.contains(a) && a.login_time < t),
        s.len() == 0 ==> stale_before_spec(s, t) == Seq::<AttemptView>::empty(),
{
    lemma_filter_membership(s, |a: AttemptView| a.login_time < t);
    assert forall|a: AttemptView|
        s.contains(a) && a.login_time < t implies #[trigger] stale_before_spec(s, t).contains(
        a,
    ) by {
        let i = choose|i: int| 0 <= i < s.len() && s[i] == a;
        s.lemma_filter_contains(|a: AttemptView| a.login_time < t, i);
    }
    if s.len() == 0 {
        reveal_with_fuel(Seq::filter, 1);
        assert(stale_before_spec(s, t) =~= Seq::<AttemptView>::empty());
    }
}

/// Marking a key pending again is a self-loop: once any record for the key
/// exists, a further `mark_incomplete` — whatever its metadata, time or
/// configuration — changes nothing.
pub proof fn lemma_mark_pending_idempotent(
    s: Seq<AttemptView>,
    cfg: Config,
    u: Seq<char>,
    d: Seq<char>,
    name: Seq<char>,
    ty: int,
    ip: Seq<char>,
    now: int,
)
    requires
        has_key(s, u, d),
    ensures
        mark_incomplete_spec(s, cfg, u, d, name, ty, ip, now) == s,
{
}

/// Exactly one record per key: `mark_incomplete` preserves the primary-key
/// uniqueness, and with the feature enabled it leaves exactly one stored
/// record for the key, however the key got there. Together with the
/// self-loop lemma above, repeated inserts for one key — the store's atomic
/// conditional insert lets one writer win — leave a single record.
pub proof fn lemma_mark_pending_single_record(
    s: Seq<AttemptView>,
    cfg: Config,
    u: Seq<char>,
    d: Seq<char>,
    name: Seq<char>,
    ty: int,
    ip: Seq<char>,
    now: int,
)
    requires
        distinct_keys(s),
    ensures
        ({
            let s1 = mark_incomplete_spec(s, cfg, u, d, name, ty, ip, now);
            &&& distinct_keys(s1)
            &&& (cfg.enabled_spec() ==> count_key(s1, u, d) == 1)
        }),
{
    if cfg.enabled_spec() {
        if has_key(s, u, d) {
            lemma_distinct_count(s, u, d);
        } else {
            let a = AttemptView {
                user_uuid: u,
                device_uuid: d,
                device_name: name,
                device_type: ty,
                login_time: now,
                ip_address: ip,
            };
            let s1 = s.push(a);
            lemma_push_fresh_distinct(s, a);
            assert(key_matches(s1[s.len() as int], u, d));
            assert(has_key(s1, u, d));
            lemma_distinct_count(s1, u, d);
        }
    }
}

/// Bulk delete by user is exact: afterwards the store holds a record if and
/// only if it held it before and the record belongs to another user.
pub proof fn lemma_delete_for_user_exact(s: Seq<AttemptView>, u: Seq<char>)
    ensures
        forall|a: AttemptView| #[trigger]
            remove_user_spec(s, u).contains(a) <==> (s.contains(a) && a.user_uuid != u),
{
    lemma_filter_membership(s, |a: AttemptView| a.user_uuid != u);
    assert forall|a: AttemptView|
        s.contains(a) && a.user_uuid != u implies #[trigger] remove_user_spec(s, u).contains(
        a,
    ) by {
        let i = choose|i: int| 0 <= i < s.len() && s[i] == a;
        s.lemma_filter_contains(|a: AttemptView| a.user_uuid != u, i);
    }
}

} // verus!
