use vstd::prelude::*;

verus! {

/// One record of a login attempt that passed primary authentication but has
/// not yet completed second-factor verification.
///
/// `device_uuid` is whatever the device claimed; it need not correspond to a
/// registered device, and every string field is untrusted client metadata.
/// `login_time` is a UTC timestamp in seconds; it is set once, at creation,
/// and never updated afterwards.
pub struct TwoFactorIncomplete {
    pub user_uuid: String,
    pub device_uuid: String,
    pub device_name: String,
    pub device_type: i32,
    pub login_time: i64,
    pub ip_address: String,
}

/// The mathematical image of a record: character sequences and unbounded
/// integers, the form the contracts speak of.
pub struct AttemptView {
    pub user_uuid: Seq<char>,
    pub device_uuid: Seq<char>,
    pub device_name: Seq<char>,
    pub device_type: int,
    pub login_time: int,
    pub ip_address: Seq<char>,
}

impl View for TwoFactorIncomplete {
    type V = AttemptView;

    open spec fn view(&self) -> AttemptView {
        AttemptView {
            user_uuid: self.user_uuid@,
            device_uuid: self.device_uuid@,
            device_name: self.device_name@,
            device_type: self.device_type as int,
            login_time: self.login_time as int,
            ip_address: self.ip_address@,
        }
    }
}

/// The two configuration switches read before every mutating call: tracking
/// is active only when the time limit is positive and notification mail is
/// enabled. Both gates disable tracking entirely, not just the notification.
#[derive(Clone, Copy)]
pub struct Config {
    pub incomplete_2fa_time_limit: i64,
    pub mail_enabled: bool,
}

impl Config {
    /// Whether the incomplete-2FA feature performs any storage work at all.
    pub open spec fn enabled_spec(self) -> bool {
        self.incomplete_2fa_time_limit > 0 && self.mail_enabled
    }

    pub fn enabled(&self) -> (r: bool)
        ensures
            r == self.enabled_spec(),
    {
        self.incomplete_2fa_time_limit > 0 && self.mail_enabled
    }
}

/// Failure of the persistence collaborator. The in-memory store never raises
/// it; the variant exists so that callers layered over a fallible store see
/// the same result shape.
pub enum StorageError {
    Backend,
}

} // verus!
