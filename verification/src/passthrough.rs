//! The keyboard side of a passthrough session: which keys leave it, the
//! escape-then-x exit that holds an escape back until the next key or a
//! timeout, and the bytes each key sends to the channel.
use vstd::prelude::*;
use crate::host_session::{channel_position, passthrough_policy_for_channel};
use crate::interactive::{
    is_passthrough_escape_exit_suffix, is_passthrough_exit_key, is_passthrough_meta_exit_key,
    key_payload, passthrough_key_payload, TerminalKey, TerminalKeyCode,
};
use crate::manifest::{DeviceManifest, PassthroughPolicy, NEWLINE_POLICY_UNSPECIFIED};

verus! {

/// What the session does after a key or a timeout: quit, or send these
/// keys to the channel, in order, and note whether an escape is held back.
#[derive(Clone, Debug, PartialEq, Eq)]
pub struct PassthroughStep {
    pub quit: bool,
    pub send: Vec<TerminalKey>,
    pub escape_pending: bool,
}

/// The escape key with no modifiers.
pub open spec fn escape_key() -> TerminalKey {
    TerminalKey { code: TerminalKeyCode::Esc, control: false, alt: false, shift: false, super_key: false }
}

pub open spec fn exit_key(key: TerminalKey) -> bool {
    key.code == TerminalKeyCode::Char('\u{1d}') || (key.control && (key.code == TerminalKeyCode::Char(']')
        || key.code == TerminalKeyCode::Char('}')))
}

pub open spec fn x_key(key: TerminalKey) -> bool {
    key.code == TerminalKeyCode::Char('x') || key.code == TerminalKeyCode::Char('X')
}

/// After a key: `Ctrl-]` and `Alt-x` quit; an `x` right after an escape
/// quits; otherwise a held-back escape is sent first, and an escape is
/// held back while any other key is sent.
pub open spec fn key_step(escape_pending: bool, key: TerminalKey) -> (bool, Seq<TerminalKey>, bool) {
    if exit_key(key) || (key.alt && x_key(key)) {
        (true, Seq::empty(), escape_pending)
    } else if escape_pending && x_key(key) {
        (true, Seq::empty(), false)
    } else {
        let held: Seq<TerminalKey> = if escape_pending { seq![escape_key()] } else { Seq::empty() };
        if key.code == TerminalKeyCode::Esc {
            (false, held, true)
        } else {
            (false, held.push(key), false)
        }
    }
}

/// After the escape timeout: a held-back escape is sent on its own.
pub open spec fn timeout_step(escape_pending: bool) -> (bool, Seq<TerminalKey>, bool) {
    if escape_pending {
        (false, seq![escape_key()], false)
    } else {
        (false, Seq::empty(), false)
    }
}

pub open spec fn step_view(s: PassthroughStep) -> (bool, Seq<TerminalKey>, bool) {
    (s.quit, s.send@, s.escape_pending)
}

pub fn passthrough_key_step(escape_pending: bool, key: TerminalKey) -> (r: PassthroughStep)
    ensures
        step_view(r) == key_step(escape_pending, key),
{
    let mut send: Vec<TerminalKey> = Vec::new();
    if is_passthrough_exit_key(key) || is_passthrough_meta_exit_key(key) {
        return PassthroughStep { quit: true, send, escape_pending };
    }
    if escape_pending {
        if is_passthrough_escape_exit_suffix(key) {
            return PassthroughStep { quit: true, send, escape_pending: false };
        }
        send.push(TerminalKey { code: TerminalKeyCode::Esc, control: false, alt: false, shift: false, super_key: false });
    }
    let is_escape = match key.code {
        TerminalKeyCode::Esc => true,
        _ => false,
    };
    if is_escape {
        assert(send@ =~= (if escape_pending { seq![escape_key()] } else { Seq::<TerminalKey>::empty() }));
        return PassthroughStep { quit: false, send, escape_pending: true };
    }
    send.push(key);
    assert(send@ =~= (if escape_pending { seq![escape_key()] } else { Seq::<TerminalKey>::empty() }).push(key));
    PassthroughStep { quit: false, send, escape_pending: false }
}

pub fn passthrough_timeout_step(escape_pending: bool) -> (r: PassthroughStep)
    ensures
        step_view(r) == timeout_step(escape_pending),
{
    let mut send: Vec<TerminalKey> = Vec::new();
    if escape_pending {
        send.push(TerminalKey { code: TerminalKeyCode::Esc, control: false, alt: false, shift: false, super_key: false });
        assert(send@ =~= seq![escape_key()]);
    } else {
        assert(send@ =~= Seq::<TerminalKey>::empty());
    }
    PassthroughStep { quit: false, send, escape_pending: false }
}

/// The newline policy for keys sent to a channel: the manifest's, or the
/// unspecified one before a manifest names the channel.
pub open spec fn channel_policy(manifest: Option<DeviceManifest>, channel_id: u32) -> PassthroughPolicy {
    match manifest {
        Some(m) => match channel_position(m.channels@, channel_id) {
            Some(i) => m.channels@[i].passthrough_policy,
            None => PassthroughPolicy { input_newline_policy: NEWLINE_POLICY_UNSPECIFIED },
        },
        None => PassthroughPolicy { input_newline_policy: NEWLINE_POLICY_UNSPECIFIED },
    }
}

/// The bytes a key sends to the channel under the channel's policy.
pub fn passthrough_key_bytes(channel: u8, key: TerminalKey, manifest: Option<&DeviceManifest>) -> (r: Option<Vec<u8>>)
    ensures
        match key_payload(key, channel_policy(match manifest { Some(m) => Some(*m), None => None }, channel as u32)) {
            Some(bytes) => r matches Some(v) && v@ == bytes,
            None => r is None,
        },
{
    let policy = match manifest {
        Some(m) => match passthrough_policy_for_channel(m, channel as u32) {
            Some(p) => p,
            None => PassthroughPolicy::unspecified(),
        },
        None => PassthroughPolicy::unspecified(),
    };
    passthrough_key_payload(key, policy)
}

/// An escape followed by `x` leaves passthrough, whatever modifiers the
/// `x` carries, and an escape followed by another ordinary key sends the
/// escape and then the key.
pub proof fn lemma_escape_then_key(key: TerminalKey)
    ensures
        ({
            let (held, sent, pending) = key_step(false, escape_key());
            !held && sent.len() == 0 && pending
        }),
        x_key(key) ==> key_step(true, key).0,
        !exit_key(key) && !x_key(key) && key.code != TerminalKeyCode::Esc
            ==> key_step(true, key) == (false, seq![escape_key(), key], false),
        timeout_step(true) == (false, seq![escape_key()], false),
{
    if !exit_key(key) && !x_key(key) && key.code != TerminalKeyCode::Esc {
        assert(seq![escape_key()].push(key) =~= seq![escape_key(), key]);
    }
}

/// Without a held-back escape, an ordinary key is sent as it is.
pub proof fn lemma_plain_key_passes(key: TerminalKey)
    requires
        !exit_key(key),
        !(key.alt && x_key(key)),
        key.code != TerminalKeyCode::Esc,
    ensures
        key_step(false, key) == (false, seq![key], false),
{
    assert(Seq::<TerminalKey>::empty().push(key) =~= seq![key]);
}

} // verus!
