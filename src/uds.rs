use vstd::prelude::*;

verus! {

/// Every bit that a socket mode may carry: permissions, set-id and sticky.
pub const MODE_MASK: u32 = 0o7777;

/// What the filesystem holds at the socket path before binding.
#[derive(Clone, Copy, Debug, PartialEq, Eq, Structural)]
pub enum EntryKind {
    /// Nothing.
    Missing,
    /// A socket, left over from an earlier listener.
    Socket,
    /// Anything else: a file, a directory, a link to one.
    Other,
}

/// What the binder does with the entry at the path.
#[derive(Clone, Copy, Debug, PartialEq, Eq, Structural)]
pub enum StaleAction {
    /// Bind at once.
    Bind,
    /// Unlink the stale socket, then bind.
    RemoveThenBind,
}

/// Why a Unix domain socket listener cannot be bound.
#[derive(Clone, Copy, Debug, PartialEq, Eq, Structural)]
pub enum UdsError {
    /// The path holds something other than a socket; it is left alone.
    NotASocket,
    /// The mode has bits outside permissions, set-id and sticky.
    InvalidMode(u32),
}

/// The mode is made of permission, set-id and sticky bits only.
pub open spec fn valid_mode(bits: u32) -> bool {
    bits <= MODE_MASK
}

/// Relies on nix::sys::stat::Mode::from_bits, which accepts exactly the bits
/// of its flags (read, write and execute for owner, group and others, set-uid,
/// set-gid, sticky: together 0o7777) and hands them back unchanged. A value
/// that the platform's `mode_t` cannot hold is refused before the call.
#[verifier::external_body]
fn mode_from_bits(bits: u32) -> (r: Option<u32>)
    ensures
        r == (if valid_mode(bits) { Some(bits) } else { None::<u32> }),
{
    nix::libc::mode_t::try_from(bits)
        .ok()
        .and_then(nix::sys::stat::Mode::from_bits)
        .map(|m| m.bits() as u32)
}

/// Decides what to do with what the path holds: a stale socket is removed,
/// anything else that is not a socket makes the bind fail.
pub fn stale_entry_action(kind: EntryKind) -> (r: Result<StaleAction, UdsError>)
    ensures
        kind == EntryKind::Missing ==> r == Ok::<StaleAction, UdsError>(StaleAction::Bind),
        kind == EntryKind::Socket ==> r == Ok::<StaleAction, UdsError>(StaleAction::RemoveThenBind),
        kind == EntryKind::Other ==> r == Err::<StaleAction, UdsError>(UdsError::NotASocket),
{
    match kind {
        EntryKind::Missing => Ok(StaleAction::Bind),
        EntryKind::Socket => Ok(StaleAction::RemoveThenBind),
        EntryKind::Other => Err(UdsError::NotASocket),
    }
}

/// Checks the mode to apply to the socket, if one is given.
pub fn checked_mode(mode: Option<u32>) -> (r: Result<Option<u32>, UdsError>)
    ensures
        match mode {
            None => r == Ok::<Option<u32>, UdsError>(None),
            Some(bits) => if valid_mode(bits) {
                r == Ok::<Option<u32>, UdsError>(Some(bits))
            } else {
                r == Err::<Option<u32>, UdsError>(UdsError::InvalidMode(bits))
            },
        },
{
    match mode {
        None => Ok(None),
        Some(bits) => match mode_from_bits(bits) {
            Some(valid) => Ok(Some(valid)),
            None => Err(UdsError::InvalidMode(bits)),
        },
    }
}

} // verus!
