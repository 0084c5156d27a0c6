//! The keyboard: scan codes become characters, which stimulate the network and are
//! handed to the shell.

use crate::console::{screen_ok, screen_view, Console, ConsoleView};
use crate::neurons::{on_key_stimulus, stimulus_of, Neuron};
use crate::shell::{char_entered, Shell};
use pc_keyboard::{DecodedKey, HandleControl, KeyEvent, Keyboard, ScancodeSet1};
use pc_keyboard::layouts::Us104Key;
use vstd::prelude::*;

verus! {

/// The outside decoder `pc_keyboard::Keyboard`, for the first scan code set and the
/// United States layout. Nothing is known of it but what the functions below say.
#[verifier::external_body]
pub struct KeyDecoder {
    keyboard: Keyboard<Us104Key, ScancodeSet1>,
}

/// What a decoder remembers: the keys that are held and locked, and the
/// prefix of a scan code that was begun, as a number.
pub uninterp spec fn keyboard_state(k: KeyDecoder) -> nat;

/// A key that went down or came up, as the decoder reports it.
#[verifier::external_type_specification]
#[verifier::external_body]
pub struct ExKeyEvent(pc_keyboard::KeyEvent);

/// What a decoder remembers after a byte, and the key event that the byte completed.
pub uninterp spec fn byte_added(state: nat, byte: u8) -> (nat, Option<KeyEvent>);

/// What a decoder remembers after a key event, and the character that the key typed.
pub uninterp spec fn event_processed(state: nat, event: KeyEvent) -> (nat, Option<char>);

/// What a decoder remembers after a byte, and the character that the byte typed.
pub open spec fn byte_decoded(state: nat, byte: u8) -> (nat, Option<char>) {
    let added = byte_added(state, byte);
    match added.1 {
        Some(event) => event_processed(added.0, event),
        None => (added.0, None),
    }
}

/// Makes a decoder with `pc_keyboard::Keyboard::new`, for the first scan code set and
/// the United States layout, with the control key ignored. Every new decoder remembers
/// the same, which is numbered 0.
#[verifier::external_body]
fn new_decoder() -> (r: KeyDecoder)
    ensures
        keyboard_state(r) == 0,
{
    KeyDecoder {
        keyboard: Keyboard::new(ScancodeSet1::new(), Us104Key, HandleControl::Ignore),
    }
}

/// Feeds a byte to `pc_keyboard::Keyboard::add_byte`. What the decoder remembers then,
/// and the key event, depend on the byte and on what it remembered before, and on
/// nothing else; a byte that only begins a code and an unknown code give none. A byte
/// from 0x80 on begins a longer code or releases a key, and a released key types
/// nothing, whatever the decoder remembers.
#[verifier::external_body]
fn add_byte(k: &mut KeyDecoder, byte: u8) -> (r: Option<KeyEvent>)
    ensures
        (keyboard_state(*final(k)), r) == byte_added(keyboard_state(*old(k)), byte),
        byte >= 0x80 ==> match r {
            Some(event) => forall|state: nat| (#[trigger] event_processed(state, event)).1 is None,
            None => true,
        },
{
    match k.keyboard.add_byte(byte) {
        Ok(event) => event,
        Err(_) => None,
    }
}

/// Hands a key event to `pc_keyboard::Keyboard::process_keyevent`. What the decoder
/// remembers then, and the character, depend on the event and on what it remembered
/// before, and on nothing else; keys without a character give none.
#[verifier::external_body]
fn process_keyevent(k: &mut KeyDecoder, event: KeyEvent) -> (r: Option<char>)
    ensures
        (keyboard_state(*final(k)), r) == event_processed(keyboard_state(*old(k)), event),
{
    match k.keyboard.process_keyevent(event) {
        Some(DecodedKey::Unicode(c)) => Some(c),
        Some(DecodedKey::RawKey(_)) => None,
        None => None,
    }
}

/// Decodes a byte: the key event that it completes, where it completes one, is
/// processed at once.
fn decode_byte(k: &mut KeyDecoder, byte: u8) -> (r: Option<char>)
    ensures
        (keyboard_state(*final(k)), r) == byte_decoded(keyboard_state(*old(k)), byte),
        byte >= 0x80 ==> r is None,
{
    match add_byte(k, byte) {
        Some(event) => process_keyevent(k, event),
        None => None,
    }
}

/// The keyboard's decoder, and every character typed so far.
pub struct KeyboardInput {
    pub decoder: KeyDecoder,
    pub typed: String,
}

/// What a key press leads to: the neuron to stimulate, and the command to run.
pub struct KeyResponse {
    pub stimulus: Option<(Neuron, u32)>,
    pub command: Option<String>,
}

/// What a typed character comes to: everything typed, the shell's line, the screen,
/// the neuron to stimulate and the command to run.
pub struct Keyed {
    pub typed: Seq<char>,
    pub line: Seq<char>,
    pub screen: Option<ConsoleView>,
    pub stimulus: Option<(Neuron, u32)>,
    pub command: Option<Seq<char>>,
}

/// What a decoded byte comes to.
pub open spec fn keyed(
    typed: Seq<char>,
    line: Seq<char>,
    screen: Option<ConsoleView>,
    c: Option<char>,
) -> Keyed {
    match c {
        Some(ch) => {
            let entered = char_entered(line, screen, ch);
            Keyed {
                typed: typed.push(ch),
                line: entered.0,
                screen: entered.1,
                stimulus: stimulus_of(ch),
                command: entered.2,
            }
        },
        None => Keyed { typed, line, screen, stimulus: None, command: None },
    }
}

/// Takes in what a byte was decoded to: the character is recorded, offered to the
/// network and entered into the shell.
pub fn on_decoded(
    typed: &mut String,
    shell: &mut Shell,
    screen: &mut Option<Console>,
    c: Option<char>,
) -> (r: KeyResponse)
    requires
        screen_ok(*old(screen)),
    ensures
        screen_ok(*final(screen)),
        keyed(old(typed)@, old(shell).line@, screen_view(*old(screen)), c) == (Keyed {
            typed: final(typed)@,
            line: final(shell).line@,
            screen: screen_view(*final(screen)),
            stimulus: r.stimulus,
            command: match r.command {
                Some(s) => Some(s@),
                None => None,
            },
        }),
{
    match c {
        Some(ch) => {
            typed.push(ch);
            let stimulus = on_key_stimulus(ch);
            let command = shell.on_char(screen, ch);
            KeyResponse { stimulus, command }
        },
        None => KeyResponse { stimulus: None, command: None },
    }
}

impl KeyboardInput {
    /// A keyboard on which nothing was typed.
    pub fn new() -> (r: KeyboardInput)
        ensures
            keyboard_state(r.decoder) == 0,
            r.typed@ == Seq::<char>::empty(),
    {
        KeyboardInput { decoder: new_decoder(), typed: String::new() }
    }

    /// Takes in a byte from the keyboard.
    pub fn on_interrupt(
        &mut self,
        shell: &mut Shell,
        screen: &mut Option<Console>,
        scancode: u8,
    ) -> (r: KeyResponse)
        requires
            screen_ok(*old(screen)),
        ensures
            screen_ok(*final(screen)),
            keyboard_state(final(self).decoder) == byte_decoded(
                keyboard_state(old(self).decoder),
                scancode,
            ).0,
            keyed(
                old(self).typed@,
                old(shell).line@,
                screen_view(*old(screen)),
                byte_decoded(keyboard_state(old(self).decoder), scancode).1,
            ) == (Keyed {
                typed: final(self).typed@,
                line: final(shell).line@,
                screen: screen_view(*final(screen)),
                stimulus: r.stimulus,
                command: match r.command {
                    Some(s) => Some(s@),
                    None => None,
                },
            }),
            scancode >= 0x80 ==> final(self).typed@ == old(self).typed@ && final(shell).line@
                == old(shell).line@ && screen_view(*final(screen)) == screen_view(*old(screen)),
    {
        let c = decode_byte(&mut self.decoder, scancode);
        on_decoded(&mut self.typed, shell, screen, c)
    }
}

/// A key adds its character to what was typed and nothing else to it; where no
/// character came of a byte, nothing changes.
pub proof fn law_typed_text_grows_by_the_key(
    typed: Seq<char>,
    line: Seq<char>,
    screen: Option<ConsoleView>,
    c: char,
)
    ensures
        keyed(typed, line, screen, Some(c)).typed.len() == typed.len() + 1,
        keyed(typed, line, screen, Some(c)).typed.drop_last() == typed,
        keyed(typed, line, screen, Some(c)).typed.last() == c,
        keyed(typed, line, screen, None) == (Keyed {
            typed,
            line,
            screen,
            stimulus: None,
            command: None,
        }),
{
}

} // verus!
