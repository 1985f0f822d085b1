//! PS/2 keyboard: scancodes decoded into keys by the `pc-keyboard` crate,
//! and the key presses applied to the line being typed.
use vstd::prelude::*;

use pc_keyboard::layouts::Us104Key;
use pc_keyboard::{DecodedKey, HandleControl, PS2Keyboard, ScancodeSet1};

use crate::interrupts::handlers::{key_result, InputBuffer, KeyEffect};

verus! {

/// The decoder of the keyboard's scancodes: a `pc-keyboard` US 104-key
/// decoder for scancode set 1, ignoring the control key's mapping, with
/// its shift, lock and multi-byte state.
///
/// The decoder's type is generic over outside traits, which Verus does not
/// take as bounds of a declared type, so it is held opaque here.
#[verifier::external_body]
pub struct KeyDecoder {
    inner: PS2Keyboard<Us104Key, ScancodeSet1>,
}

/// A decoded key press: a character, or a key without one.
#[derive(Clone, Copy, Debug, PartialEq, Eq)]
pub enum Key {
    Unicode(char),
    Raw,
}

/// The scancode bytes fed to `decoder` since it was made, oldest first:
/// the state the decoder holds.
pub uninterp spec fn fed_bytes(decoder: KeyDecoder) -> Seq<u8>;

/// What a fresh decoder gives back for the last byte of `bytes`, after
/// being fed the bytes of `bytes` in order: the key the byte completes,
/// or nothing.
pub uninterp spec fn decoded_key(bytes: Seq<u8>) -> Option<Key>;

impl KeyDecoder {
    /// `PS2Keyboard::new(ScancodeSet1::new(), Us104Key, HandleControl::Ignore)`:
    /// a decoder that has been fed nothing.
    ///
    /// Trusted: the call only builds the decoder in its initial state.
    #[verifier::external_body]
    pub fn new() -> (r: KeyDecoder)
        ensures
            fed_bytes(r) == Seq::<u8>::empty(),
    {
        KeyDecoder {
            inner: PS2Keyboard::new(ScancodeSet1::new(), Us104Key, HandleControl::Ignore),
        }
    }

    /// Feeds the scancode `scancode` to the decoder: `PS2Keyboard::add_byte`,
    /// and, when that completes a key event, `PS2Keyboard::process_keyevent`
    /// on it, as the keyboard driver does; the decoder's error gives nothing.
    ///
    /// Trusted: both methods only update the decoder's state machine and
    /// modifier flags from the bytes fed in, so the key that comes back is
    /// a function of the bytes fed since the decoder was made (named by
    /// `decoded_key`). How each byte is decoded is not stated.
    #[verifier::external_body]
    pub fn decode(&mut self, scancode: u8) -> (r: Option<Key>)
        ensures
            fed_bytes(*final(self)) == fed_bytes(*old(self)).push(scancode),
            r == decoded_key(fed_bytes(*final(self))),
    {
        match self.inner.add_byte(scancode) {
            Ok(Some(event)) => match self.inner.process_keyevent(event) {
                Some(DecodedKey::Unicode(c)) => Some(Key::Unicode(c)),
                Some(DecodedKey::RawKey(_)) => Some(Key::Raw),
                None => None,
            },
            _ => None,
        }
    }
}

/// The line and effect after the decoded key `key`: for a character `c`
/// those of [`key_result`]; for anything else the line as it was and no
/// effect.
pub open spec fn key_press_result(line: Seq<char>, key: Option<Key>) -> (Seq<char>, Option<KeyEffect>) {
    match key {
        Some(Key::Unicode(c)) => {
            let (l, e) = key_result(line, c);
            (l, Some(e))
        },
        _ => (line, None),
    }
}

/// Applies the decoded key `key` to the line `line`: a character edits the
/// line as [`InputBuffer::handle_char`] does, anything else leaves it.
pub fn apply_key(line: &mut InputBuffer, key: Option<Key>) -> (r: Option<KeyEffect>)
    ensures
        (final(line)@, r) == key_press_result(old(line)@, key),
{
    match key {
        Some(Key::Unicode(c)) => Some(line.handle_char(c)),
        _ => None,
    }
}

/// Handles one scancode from the keyboard: feeds it to the decoder, and
/// applies the key decoded, if any, to the line `line`. Returns the key and
/// what it asks of the kernel.
pub fn key_press(decoder: &mut KeyDecoder, line: &mut InputBuffer, scancode: u8) -> (r: (
    Option<Key>,
    Option<KeyEffect>,
))
    ensures
        fed_bytes(*final(decoder)) == fed_bytes(*old(decoder)).push(scancode),
        r.0 == decoded_key(fed_bytes(*final(decoder))),
        (final(line)@, r.1) == key_press_result(old(line)@, r.0),
{
    let key = decoder.decode(scancode);
    let effect = apply_key(line, key);
    (key, effect)
}

/// A key press edits the line only through its character: a key without
/// one, or a byte that completes no key, leaves the line as it was and asks
/// nothing of the kernel; a character edits it as typing it does.
pub proof fn lemma_only_characters_edit(line: Seq<char>, c: char)
    ensures
        key_press_result(line, None) == (line, None::<KeyEffect>),
        key_press_result(line, Some(Key::Raw)) == (line, None::<KeyEffect>),
        key_press_result(line, Some(Key::Unicode(c))).0 == key_result(line, c).0,
        key_press_result(line, Some(Key::Unicode(c))).1 == Some(key_result(line, c).1),
{
}

} // verus!
