//! What holds of the shell as a whole.

use crate::command::CommandView;
use crate::console::{
    backspaced, cell_is_dark, char_written, law_backspace_takes_a_letter_back, law_texts_run_on,
    letter_fits, text_written, ConsoleView,
};
use crate::disk::{apply_writes, DiskView};
use crate::fs_laws::{law_read_gives_back_write, well_formed};
use crate::shell::{
    char_entered, command_ended, command_result, file_result, list_result, mkdir_result, read_result,
    remove_result, said, write_result, ActionView, KernelView,
};
use crate::text::{is_control_char, trimmed};
use vstd::prelude::*;
use vstd::utf8::{encode_utf8, encode_utf8_decode_utf8, encode_utf8_valid_utf8};

verus! {

/// The line and the screen after the characters of a text were entered one by one.
pub open spec fn typed(line: Seq<char>, screen: Option<ConsoleView>, s: Seq<char>) -> (
    Seq<char>,
    Option<ConsoleView>,
)
    decreases s.len(),
{
    if s.len() == 0 {
        (line, screen)
    } else {
        let before = typed(line, screen, s.drop_last());
        let after = char_entered(before.0, before.1, s.last());
        (after.0, after.1)
    }
}

/// Whether a key completes a line.
pub open spec fn is_enter(c: char) -> bool {
    c == '\n' || c == '\r'
}

/// Whether a key takes a character back.
pub open spec fn is_erase(c: char) -> bool {
    c == '\u{8}' || c == '\u{7f}'
}

/// What a line becomes by keys that do not complete it: an erase key takes the last
/// character back, where there is one, a printable character is put at the end, and any
/// other key is ignored.
pub open spec fn edited(line: Seq<char>, keys: Seq<char>) -> Seq<char>
    decreases keys.len(),
{
    if keys.len() == 0 {
        line
    } else {
        let before = edited(line, keys.drop_last());
        if is_erase(keys.last()) {
            if before.len() > 0 {
                before.drop_last()
            } else {
                before
            }
        } else if is_control_char(keys.last()) {
            before
        } else {
            before.push(keys.last())
        }
    }
}

/// A printable character that is taken back leaves the line as it was, and the screen
/// too, where the character fits on its line and its cell was dark.
pub proof fn law_backspace_undoes_typing(
    line: Seq<char>,
    screen: Option<ConsoleView>,
    c: char,
    erase: char,
)
    requires
        !is_control_char(c),
        is_erase(erase),
    ensures
        ({
            let after = char_entered(line, screen, c);
            let back = char_entered(after.0, after.1, erase);
            &&& after.2 is None
            &&& back.2 is None
            &&& back.0 == line
            &&& screen is None ==> back.1 == screen
            &&& screen matches Some(v) ==> (letter_fits(v) && cell_is_dark(v) ==> back.1 == screen)
        }),
{
    assert(is_control_char('\n') && is_control_char('\r') && is_control_char('\u{8}')
        && is_control_char('\u{7f}'));
    assert(line.push(c).drop_last() == line);
    if let Some(v) = screen {
        if letter_fits(v) {
            law_backspace_takes_a_letter_back(v, c);
        }
    }
}

/// Taking back a character of an empty line changes nothing.
pub proof fn law_empty_line_stays(screen: Option<ConsoleView>, erase: char)
    requires
        is_erase(erase),
    ensures
        char_entered(Seq::empty(), screen, erase) == (Seq::<char>::empty(), screen, None::<Seq<char>>),
{
}

proof fn lemma_typed_line(line: Seq<char>, screen: Option<ConsoleView>, keys: Seq<char>)
    requires
        forall|i: int| 0 <= i < keys.len() ==> !is_enter(#[trigger] keys[i]),
    ensures
        typed(line, screen, keys).0 == edited(line, keys),
    decreases keys.len(),
{
    if keys.len() > 0 {
        lemma_typed_line(line, screen, keys.drop_last());
        assert(!is_enter(keys.last()));
    }
}

/// A line that is typed and completed is run as a command, without the white space at
/// its ends, and leaves an empty line. What is run is what the erase keys have left:
/// they and the other keys that print nothing are no part of it. No key runs anything
/// before that.
pub proof fn law_entered_text_is_run(
    line: Seq<char>,
    screen: Option<ConsoleView>,
    keys: Seq<char>,
    enter: char,
)
    requires
        forall|i: int| 0 <= i < keys.len() ==> !is_enter(#[trigger] keys[i]),
        is_enter(enter),
    ensures
        ({
            let before = typed(line, screen, keys);
            let after = char_entered(before.0, before.1, enter);
            after.2 == Some(trimmed(edited(line, keys))) && after.0 == Seq::<char>::empty()
        }),
        forall|k: int|
            0 <= k < keys.len() ==> ({
                let before = typed(line, screen, #[trigger] keys.take(k));
                char_entered(before.0, before.1, keys[k]).2 is None
            }),
{
    lemma_typed_line(line, screen, keys);
}

/// A text of printable characters is what it is typed as.
pub proof fn law_printable_text_is_kept(line: Seq<char>, text: Seq<char>)
    requires
        forall|i: int| 0 <= i < text.len() ==> !is_control_char(#[trigger] text[i]),
    ensures
        edited(line, text) == line + text,
    decreases text.len(),
{
    if text.len() == 0 {
        assert(line + text == line);
    } else {
        law_printable_text_is_kept(line, text.drop_last());
        assert(!is_control_char(text.last()));
        assert(is_control_char('\u{8}') && is_control_char('\u{7f}'));
        assert((line + text.drop_last()).push(text.last()) == line + text);
    }
}

/// The prompt follows what a command has printed by itself.
pub proof fn law_prompt_follows_output(k: KernelView, text: Seq<char>)
    ensures
        command_ended(said(k, text).screen, Seq::empty()) == command_ended(k.screen, text),
{
    if let Some(v) = k.screen {
        law_texts_run_on(v, text, "> "@);
        assert(Seq::<char>::empty() + "> "@ == "> "@);
    }
}

/// A command on files that needs a sector or has something stored changes nothing by
/// itself.
proof fn lemma_files_wait(k: KernelView, d: DiskView, c: CommandView)
    ensures
        ({
            let after = file_result(k, d, c);
            after.1 is Need || after.1 is Store ==> after.0 == k
        }),
{
    match c {
        CommandView::List(dir) => {
            reveal(list_result);
        },
        CommandView::Write(Some((name, text))) => {
            reveal(write_result);
        },
        CommandView::Read(name) => {
            reveal(read_result);
        },
        CommandView::Remove(name) => {
            reveal(remove_result);
        },
        CommandView::MakeDir(name) => {
            reveal(mkdir_result);
        },
        _ => {},
    }
}

/// A command that needs another sector has changed nothing.
#[verifier::spinoff_prover]
#[verifier::rlimit(40)]
pub proof fn law_asking_changes_nothing(k: KernelView, d: DiskView, c: CommandView)
    ensures
        command_result(k, d, c).1 is Need ==> command_result(k, d, c).0 == k,
{
    lemma_files_wait(k, d, c);
}

/// A command that stores something has changed nothing else: what it prints waits
/// for the drive.
#[verifier::spinoff_prover]
#[verifier::rlimit(40)]
pub proof fn law_storing_prints_later(k: KernelView, d: DiskView, c: CommandView)
    ensures
        command_result(k, d, c).1 is Store ==> command_result(k, d, c).0 == k,
{
    lemma_files_wait(k, d, c);
}

/// A text that `write` has stored is what `read` prints.
pub proof fn law_written_text_is_printed(
    k: KernelView,
    d: DiskView,
    name: Seq<char>,
    text: Seq<char>,
)
    requires
        well_formed(d),
        write_result(k, d, name, text).1 is Store,
    ensures
        read_result(
            k,
            apply_writes(d, write_result(k, d, name, text).1->writes),
            name,
        ) == (said(k, text + "\n"@), ActionView::Done),
{
    reveal(write_result);
    reveal(read_result);
    law_read_gives_back_write(
        d,
        name,
        encode_utf8(text),
        write_result(k, d, name, text).1->writes,
    );
    encode_utf8_valid_utf8(text);
    encode_utf8_decode_utf8(text);
}

/// What a command prints reaches the screen, and nothing else changes by it.
pub proof fn law_messages_reach_the_screen(k: KernelView, v: ConsoleView, s: Seq<char>)
    ensures
        k.screen == Some(v) ==> said(k, s) == (KernelView {
            screen: Some(text_written(v, s)),
            ..k
        }),
        k.screen is None ==> said(k, s) == k,
{
}

/// A command ends with its reply and then, at once, a prompt.
pub proof fn law_commands_end_with_a_prompt(v: ConsoleView, reply: Seq<char>)
    ensures
        command_ended(Some(v), reply) == Some(
            char_written(char_written(text_written(v, reply), '>'), ' '),
        ),
        command_ended(None, reply) is None,
{
    reveal_strlit("> ");
    let prompt = "> "@;
    law_texts_run_on(v, reply, prompt);
    reveal_with_fuel(text_written, 3);
    assert(prompt.drop_last().drop_last() == Seq::<char>::empty());
    assert(prompt.drop_last().last() == '>');
    assert(prompt.last() == ' ');
}

/// A printable character is shown as it is typed, the end of a line starts a new one, and
/// a key that does neither leaves the screen alone, unless it takes a character back.
pub proof fn law_keys_are_echoed(line: Seq<char>, v: ConsoleView, c: char)
    ensures
        ({
            let after = char_entered(line, Some(v), c).1;
            if is_enter(c) {
                after == Some(char_written(v, '\n'))
            } else if is_erase(c) {
                after == Some(
                    if line.len() > 0 {
                        backspaced(v)
                    } else {
                        v
                    },
                )
            } else if is_control_char(c) {
                after == Some(v)
            } else {
                after == Some(char_written(v, c))
            }
        }),
        char_entered(line, None, c).1 is None,
{
}

} // verus!
