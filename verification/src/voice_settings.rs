//! Per-guild voice recording settings: how long a paused recording may wait
//! for its owner before it is finalized.

use vstd::prelude::*;
use crate::errors::AppError;
use crate::text::{chars_of, push_dec_i64, string_of};

verus! {

/// Six hours, the cap used when a guild has configured none.
pub const DEFAULT_PENDING_CAP_SECONDS: i32 = 6 * 60 * 60;

/// The shortest cap a guild may configure.
pub const MIN_PENDING_CAP_SECONDS: i32 = 60;

/// The effective settings of a guild.
#[derive(Debug, Clone, Copy, PartialEq, Eq, Structural)]
pub struct GuildVoiceSettings {
    pub pending_cap_seconds: i32,
    pub is_default: bool,
}

/// The settings a manager asks for.
#[derive(Debug, Clone, Copy, PartialEq, Eq, Structural)]
pub struct GuildVoiceSettingsBody {
    pub pending_cap_seconds: i32,
}

/// The settings in force given what is configured (if anything).
pub open spec fn effective_spec(configured: Option<i32>) -> GuildVoiceSettings {
    match configured {
        Some(v) => GuildVoiceSettings { pending_cap_seconds: v, is_default: false },
        None => GuildVoiceSettings { pending_cap_seconds: 21600, is_default: true },
    }
}

/// The settings in force: the configured cap, or the default one.
pub fn effective_voice_settings(configured: Option<i32>) -> (s: GuildVoiceSettings)
    ensures
        s == effective_spec(configured),
{
    match configured {
        Some(v) => GuildVoiceSettings { pending_cap_seconds: v, is_default: false },
        None => GuildVoiceSettings { pending_cap_seconds: DEFAULT_PENDING_CAP_SECONDS, is_default: true },
    }
}

/// Accepts a requested cap of at least a minute; what is then stored is in
/// force as configured.
pub fn validate_voice_settings(body: GuildVoiceSettingsBody) -> (r: Result<GuildVoiceSettings, AppError>)
    ensures
        body.pending_cap_seconds < 60 ==> (r matches Err(AppError::BadRequest(m))
            && m@ == "pending_cap_seconds must be at least "@ + crate::text::dec_int(60)),
        body.pending_cap_seconds >= 60 ==> r == Ok::<GuildVoiceSettings, AppError>(
            GuildVoiceSettings { pending_cap_seconds: body.pending_cap_seconds, is_default: false },
        ),
{
    if body.pending_cap_seconds < MIN_PENDING_CAP_SECONDS {
        let mut m = chars_of("pending_cap_seconds must be at least ");
        push_dec_i64(&mut m, MIN_PENDING_CAP_SECONDS as i64);
        return Err(AppError::BadRequest(string_of(&m)));
    }
    Ok(GuildVoiceSettings { pending_cap_seconds: body.pending_cap_seconds, is_default: false })
}

/// What a guild reads back after a successful update is what it wrote, and
/// after a reset it reads the default.
pub proof fn law_read_gives_back_write(v: i32)
    requires
        v >= 60,
    ensures
        effective_spec(Some(v)) == (GuildVoiceSettings { pending_cap_seconds: v, is_default: false }),
        effective_spec(None).pending_cap_seconds == 21600 && effective_spec(None).is_default,
{
}

} // verus!
