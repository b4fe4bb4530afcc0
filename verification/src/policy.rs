use crate::attempt::{AttemptView, Config, StorageError, TwoFactorIncomplete};
use crate::store::{
    find_spec, has_key, lemma_find_spec_characterizes, remove_key_spec, remove_user_spec,
    stale_before_spec, views_of, TwoFactorStore,
};
use vstd::prelude::*;

verus! {

/// The state of the store after `mark_incomplete`: untouched when the
/// feature is disabled or a record for the key already exists (the anti-reset
/// self-loop), otherwise extended by one new record stamped `now`.
pub open spec fn mark_incomplete_spec(
    s: Seq<AttemptView>,
    cfg: Config,
    u: Seq<char>,
    d: Seq<char>,
    name: Seq<char>,
    ty: int,
    ip: Seq<char>,
    now: int,
) -> Seq<AttemptView> {
    if !cfg.enabled_spec() {
        s
    } else if has_key(s, u, d) {
        s
    } else {
        s.push(
            AttemptView {
                user_uuid: u,
                device_uuid: d,
                device_name: name,
                device_type: ty,
                login_time: now,
                ip_address: ip,
            },
        )
    }
}

/// The state of the store after `mark_complete`: the key's record removed
/// when the feature is enabled, untouched otherwise.
pub open spec fn mark_complete_spec(
    s: Seq<AttemptView>,
    cfg: Config,
    u: Seq<char>,
    d: Seq<char>,
) -> Seq<AttemptView> {
    if cfg.enabled_spec() {
        remove_key_spec(s, u, d)
    } else {
        s
    }
}

impl TwoFactorIncomplete {
    /// Record an incomplete second-factor login for (user, device).
    ///
    /// The feature gates are checked first: when disabled, storage is never
    /// touched. When a record for the key already exists, the call succeeds
    /// without modifying it, so repeated attempts cannot reset `login_time`
    /// and thereby delay the eventual notification. Otherwise exactly one
    /// record stamped `now` is inserted.
    pub fn mark_incomplete(
        user_uuid: &String,
        device_uuid: &String,
        device_name: &str,
        device_type: i32,
        ip_address: &str,
        now: i64,
        config: &Config,
        conn: &mut TwoFactorStore,
    ) -> (r: Result<(), StorageError>)
        requires
            old(conn).wf(),
        ensures
            final(conn).wf(),
            final(conn)@ == mark_incomplete_spec(
                old(conn)@,
                *config,
                user_uuid@,
                device_uuid@,
                device_name@,
                device_type as int,
                ip_address@,
                now as int,
            ),
            r == Ok::<(), StorageError>(()),
    {
        if !config.enabled() {
            return Ok(());
        }
        // Never update an existing pair: that would let an attacker delay
        // notifications arbitrarily by retrying and resetting the timer.
        let existing = Self::find_by_user_and_device(user_uuid, device_uuid, conn);
        proof {
            lemma_find_spec_characterizes(conn@, user_uuid@, device_uuid@);
        }
        if existing.is_some() {
            return Ok(());
        }
        let rec = TwoFactorIncomplete {
            user_uuid: user_uuid.clone(),
            device_uuid: device_uuid.clone(),
            device_name: device_name.to_owned(),
            device_type,
            login_time: now,
            ip_address: ip_address.to_owned(),
        };
        conn.insert_if_absent(rec);
        Ok(())
    }

    /// Clear the pending record for (user, device) once the second factor
    /// has been supplied, or the pending state should otherwise be dropped.
    /// Deleting an absent key succeeds; the same feature gates apply.
    pub fn mark_complete(
        user_uuid: &String,
        device_uuid: &String,
        config: &Config,
        conn: &mut TwoFactorStore,
    ) -> (r: Result<(), StorageError>)
        requires
            old(conn).wf(),
        ensures
            final(conn).wf(),
            final(conn)@ == mark_complete_spec(old(conn)@, *config, user_uuid@, device_uuid@),
            r == Ok::<(), StorageError>(()),
    {
        if !config.enabled() {
            return Ok(());
        }
        Self::delete_by_user_and_device(user_uuid, device_uuid, conn)
    }

    /// Point lookup of the pending record for (user, device). Pure read.
    pub fn find_by_user_and_device(
        user_uuid: &String,
        device_uuid: &String,
        conn: &TwoFactorStore,
    ) -> (r: Option<TwoFactorIncomplete>)
        ensures
            match r {
                Some(rec) => find_spec(conn@, user_uuid@, device_uuid@) == Some(rec@),
                None => find_spec(conn@, user_uuid@, device_uuid@) is None,
            },
    {
        conn.find_by_key(user_uuid, device_uuid)
    }

    /// Every pending record whose login time is strictly earlier than `dt`.
    /// Read-only: an external sweeper acts on the result and then deletes,
    /// one key at a time or in bulk, in whatever order it chooses.
    pub fn find_logins_before(dt: i64, conn: &TwoFactorStore) -> (r: Vec<TwoFactorIncomplete>)
        ensures
            views_of(r@) == stale_before_spec(conn@, dt as int),
    {
        conn.stale_before(dt)
    }

    /// Delete this record from the store by its own key.
    pub fn delete(self, conn: &mut TwoFactorStore) -> (r: Result<(), StorageError>)
        requires
            old(conn).wf(),
        ensures
            final(conn).wf(),
            final(conn)@ == remove_key_spec(old(conn)@, self.user_uuid@, self.device_uuid@),
            r == Ok::<(), StorageError>(()),
    {
        Self::delete_by_user_and_device(&self.user_uuid, &self.device_uuid, conn)
    }

    /// Delete the pending record for (user, device); absence is not an error.
    pub fn delete_by_user_and_device(
        user_uuid: &String,
        device_uuid: &String,
        conn: &mut TwoFactorStore,
    ) -> (r: Result<(), StorageError>)
        requires
            old(conn).wf(),
        ensures
            final(conn).wf(),
            final(conn)@ == remove_key_spec(old(conn)@, user_uuid@, device_uuid@),
            r == Ok::<(), StorageError>(()),
    {
        conn.delete_by_key(user_uuid, device_uuid);
        Ok(())
    }

    /// Delete every pending record owned by one user, e.g. on account
    /// deletion; absence of any is not an error.
    pub fn delete_all_by_user(user_uuid: &String, conn: &mut TwoFactorStore) -> (r: Result<
        (),
        StorageError,
    >)
        requires
            old(conn).wf(),
        ensures
            final(conn).wf(),
            final(conn)@ == remove_user_spec(old(conn)@, user_uuid@),
            r == Ok::<(), StorageError>(()),
    {
        conn.delete_by_user(user_uuid);
        Ok(())
    }
}

} // verus!
