//! The immutable configuration handed to every component at construction,
//! so that each caller (and each test) can supply its own.

use vstd::prelude::*;

verus! {

/// Where and as whom verification email is sent.
pub struct MailgunConfig {
    pub api_base_url: String,
    pub email_address: String,
}

/// Identities of the community's channels and roles.
pub struct ServerConfig {
    pub guild_id: u64,
    /// Channel group with active competition channels.
    pub ctf_category_id: u64,
    pub archived_ctf_category_id: u64,
    pub solve_approvals_channel_id: u64,
    pub bot_log_channel: u64,
    pub rank_up_channel: u64,
    pub officer_role: String,
    pub member_role: String,
    pub welcome_message: String,
    /// Message sent to people when they join the server.
    pub join_dm_message: String,
}

/// Point awards and the ordered rank ladder names (lowest first).
pub struct RankConfig {
    pub points_per_solve: i64,
    pub points_per_message: i64,
    pub rank_names: Vec<String>,
}

impl RankConfig {
    /// How many ranks are configured.
    pub fn rank_count(&self) -> (n: usize)
        ensures
            n == self.rank_names@.len(),
    {
        self.rank_names.len()
    }
}

/// The complete configuration.
pub struct Config {
    pub mailgun: MailgunConfig,
    pub server: ServerConfig,
    pub ranks: RankConfig,
}

} // verus!
