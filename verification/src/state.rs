use vstd::prelude::*;

verus! {

/// State behind the standard configuration commands that every MCU
/// implements: the checksum of the host configuration, if one has been
/// finalized.
pub struct AppState {
    pub config_crc: Option<u32>,
}

impl AppState {
    /// A fresh state with no configuration.
    pub fn new() -> (r: AppState)
        ensures
            r.config_crc is None,
    {
        AppState { config_crc: None }
    }
}

/// The argument tuple of the `config` reply: `is_config`, `crc`,
/// `is_shutdown` and `move_count`.
pub fn get_config(state: &AppState) -> (r: (bool, u32, bool, u16))
    ensures
        r.0 == state.config_crc is Some,
        r.1 == match state.config_crc {
            Some(crc) => crc,
            None => 0u32,
        },
        r.2 == false,
        r.3 == 0u16,
{
    match state.config_crc {
        Some(crc) => (true, crc, false, 0),
        None => (false, 0, false, 0),
    }
}

/// Forget the finalized configuration.
pub fn config_reset(state: &mut AppState)
    ensures
        final(state).config_crc is None,
{
    state.config_crc = None;
}

/// Record the checksum of a finalized configuration.
pub fn finalize_config(state: &mut AppState, crc: u32)
    ensures
        final(state).config_crc == Some(crc),
{
    state.config_crc = Some(crc);
}

} // verus!
