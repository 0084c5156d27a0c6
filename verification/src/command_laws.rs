//! What the lines that the shell understands mean.

use crate::command::{
    after, command_of, command_with_args, four_numbers, lemma_line_with_space, two_numbers,
    write_args, CommandView,
};
use crate::numbers::{
    decimal_text, law_decimal_has_digits_alone, law_decimal_reads_back, parsed_number,
};
use crate::text::{
    begins_with, first_index, is_space, law_white_space_separates_words, trimmed, words,
};
use vstd::prelude::*;

verus! {

/// The beginnings of lines with arguments, by their lengths and the letters that tell
/// them apart.
proof fn lemma_prefixes()
    ensures
        "addneuron "@.len() == 10,
        "addneuron "@[0] == 'a' && "addneuron "@[1] == 'd' && "addneuron "@[2] == 'd',
        "addneuron "@[9] == ' ',
        "addsynapse "@.len() == 11,
        "addsynapse "@[0] == 'a' && "addsynapse "@[1] == 'd' && "addsynapse "@[2] == 'd',
        "addsynapse "@[10] == ' ',
        "stim "@.len() == 5,
        "stim "@[0] == 's' && "stim "@[1] == 't' && "stim "@[2] == 'i',
        "stim "@[4] == ' ',
        "train "@.len() == 6,
        "train "@[0] == 't' && "train "@[1] == 'r' && "train "@[2] == 'a',
        "train "@[5] == ' ',
        "beep "@.len() == 5,
        "beep "@[0] == 'b' && "beep "@[1] == 'e' && "beep "@[2] == 'e',
        "beep "@[4] == ' ',
        "write "@.len() == 6,
        "write "@[0] == 'w' && "write "@[1] == 'r' && "write "@[2] == 'i',
        "write "@[5] == ' ',
        "read "@.len() == 5,
        "read "@[0] == 'r' && "read "@[1] == 'e' && "read "@[2] == 'a',
        "read "@[4] == ' ',
        "rm "@.len() == 3,
        "rm "@[0] == 'r' && "rm "@[1] == 'm' && "rm "@[2] == ' ',
        "rm "@[2] == ' ',
        "mkdir "@.len() == 6,
        "mkdir "@[0] == 'm' && "mkdir "@[1] == 'k' && "mkdir "@[2] == 'd',
        "mkdir "@[5] == ' ',
        "ls "@.len() == 3,
        "ls "@[0] == 'l' && "ls "@[1] == 's' && "ls "@[2] == ' ',
        "ls "@[2] == ' ',
        "kill "@.len() == 5,
        "kill "@[0] == 'k' && "kill "@[1] == 'i' && "kill "@[2] == 'l',
        "kill "@[4] == ' ',
        "runproc "@.len() == 8,
        "runproc "@[0] == 'r' && "runproc "@[1] == 'u' && "runproc "@[2] == 'n',
        "runproc "@[7] == ' ',
        "pixel "@.len() == 6,
        "pixel "@[0] == 'p' && "pixel "@[1] == 'i' && "pixel "@[2] == 'x',
        "pixel "@[5] == ' ',
        "line "@.len() == 5,
        "line "@[0] == 'l' && "line "@[1] == 'i' && "line "@[2] == 'n',
        "line "@[4] == ' ',
        "fillrect "@.len() == 9,
        "fillrect "@[0] == 'f' && "fillrect "@[1] == 'i' && "fillrect "@[2] == 'l',
        "fillrect "@[8] == ' ',
        "rect "@.len() == 5,
        "rect "@[0] == 'r' && "rect "@[1] == 'e' && "rect "@[2] == 'c',
        "rect "@[4] == ' ',
{
    reveal_strlit("addneuron ");
    reveal_strlit("addsynapse ");
    reveal_strlit("stim ");
    reveal_strlit("train ");
    reveal_strlit("beep ");
    reveal_strlit("write ");
    reveal_strlit("read ");
    reveal_strlit("rm ");
    reveal_strlit("mkdir ");
    reveal_strlit("ls ");
    reveal_strlit("kill ");
    reveal_strlit("runproc ");
    reveal_strlit("pixel ");
    reveal_strlit("line ");
    reveal_strlit("fillrect ");
    reveal_strlit("rect ");
}

/// A line that begins otherwise.
proof fn lemma_begins_otherwise(s: Seq<char>, p: Seq<char>, i: int)
    requires
        0 <= i < p.len(),
        i < s.len(),
        s[i] != p[i],
    ensures
        !begins_with(s, p),
{
    if begins_with(s, p) {
        assert(s.take(p.len() as int)[i] == p[i]);
    }
}

/// A line with a beginning and what follows it.
proof fn lemma_line(p: Seq<char>, rest: Seq<char>)
    requires
        p.len() > 0,
        p.last() == ' ',
    ensures
        ({
            let s = p + rest;
            &&& begins_with(s, p)
            &&& after(s, p) == rest
            &&& forall|i: int| 0 <= i < p.len() ==> s[i] == p[i]
            &&& command_of(s) == command_with_args(s)
        }),
{
    let s = p + rest;
    assert(s.take(p.len() as int) == p);
    assert(s.skip(p.len() as int) == rest);
    lemma_line_with_space(s, p.len() - 1);
}

proof fn lemma_beep(rest: Seq<char>)
    ensures
        command_of("beep "@ + rest) == CommandView::Beep(
            match parsed_number(trimmed(rest), u32::MAX as nat) {
                Some(f) => Some(f as u32),
                None => None,
            },
        ),
{
    lemma_prefixes();
    let p = "beep "@;
    let s = p + rest;
    lemma_line(p, rest);
    lemma_begins_otherwise(s, "addneuron "@, 0);
    lemma_begins_otherwise(s, "addsynapse "@, 0);
    lemma_begins_otherwise(s, "stim "@, 0);
    lemma_begins_otherwise(s, "train "@, 0);
}

proof fn lemma_write(rest: Seq<char>)
    ensures
        command_of("write "@ + rest) == CommandView::Write(write_args(rest)),
{
    lemma_prefixes();
    let p = "write "@;
    let s = p + rest;
    lemma_line(p, rest);
    lemma_begins_otherwise(s, "addneuron "@, 0);
    lemma_begins_otherwise(s, "addsynapse "@, 0);
    lemma_begins_otherwise(s, "stim "@, 0);
    lemma_begins_otherwise(s, "train "@, 0);
    lemma_begins_otherwise(s, "beep "@, 0);
}

proof fn lemma_read(rest: Seq<char>)
    ensures
        command_of("read "@ + rest) == CommandView::Read(trimmed(rest)),
{
    lemma_prefixes();
    let p = "read "@;
    let s = p + rest;
    lemma_line(p, rest);
    lemma_begins_otherwise(s, "addneuron "@, 0);
    lemma_begins_otherwise(s, "addsynapse "@, 0);
    lemma_begins_otherwise(s, "stim "@, 0);
    lemma_begins_otherwise(s, "train "@, 0);
    lemma_begins_otherwise(s, "beep "@, 0);
    lemma_begins_otherwise(s, "write "@, 0);
}

proof fn lemma_rm(rest: Seq<char>)
    ensures
        command_of("rm "@ + rest) == CommandView::Remove(trimmed(rest)),
{
    lemma_prefixes();
    let p = "rm "@;
    let s = p + rest;
    lemma_line(p, rest);
    lemma_begins_otherwise(s, "addneuron "@, 0);
    lemma_begins_otherwise(s, "addsynapse "@, 0);
    lemma_begins_otherwise(s, "stim "@, 0);
    lemma_begins_otherwise(s, "train "@, 0);
    lemma_begins_otherwise(s, "beep "@, 0);
    lemma_begins_otherwise(s, "write "@, 0);
    lemma_begins_otherwise(s, "read "@, 1);
}

proof fn lemma_mkdir(rest: Seq<char>)
    ensures
        command_of("mkdir "@ + rest) == CommandView::MakeDir(trimmed(rest)),
{
    lemma_prefixes();
    let p = "mkdir "@;
    let s = p + rest;
    lemma_line(p, rest);
    lemma_begins_otherwise(s, "addneuron "@, 0);
    lemma_begins_otherwise(s, "addsynapse "@, 0);
    lemma_begins_otherwise(s, "stim "@, 0);
    lemma_begins_otherwise(s, "train "@, 0);
    lemma_begins_otherwise(s, "beep "@, 0);
    lemma_begins_otherwise(s, "write "@, 0);
    lemma_begins_otherwise(s, "read "@, 0);
    lemma_begins_otherwise(s, "rm "@, 0);
}

proof fn lemma_ls(rest: Seq<char>)
    ensures
        command_of("ls "@ + rest) == CommandView::List(Some(trimmed(rest))),
{
    lemma_prefixes();
    let p = "ls "@;
    let s = p + rest;
    lemma_line(p, rest);
    lemma_begins_otherwise(s, "addneuron "@, 0);
    lemma_begins_otherwise(s, "addsynapse "@, 0);
    lemma_begins_otherwise(s, "stim "@, 0);
    lemma_begins_otherwise(s, "train "@, 0);
    lemma_begins_otherwise(s, "beep "@, 0);
    lemma_begins_otherwise(s, "write "@, 0);
    lemma_begins_otherwise(s, "read "@, 0);
    lemma_begins_otherwise(s, "rm "@, 0);
    lemma_begins_otherwise(s, "mkdir "@, 0);
}

proof fn lemma_kill(rest: Seq<char>)
    ensures
        command_of("kill "@ + rest) == CommandView::Kill(
            match parsed_number(trimmed(rest), usize::MAX as nat) {
                Some(id) => Some(id as usize),
                None => None,
            },
        ),
{
    lemma_prefixes();
    let p = "kill "@;
    let s = p + rest;
    lemma_line(p, rest);
    lemma_begins_otherwise(s, "addneuron "@, 0);
    lemma_begins_otherwise(s, "addsynapse "@, 0);
    lemma_begins_otherwise(s, "stim "@, 0);
    lemma_begins_otherwise(s, "train "@, 0);
    lemma_begins_otherwise(s, "beep "@, 0);
    lemma_begins_otherwise(s, "write "@, 0);
    lemma_begins_otherwise(s, "read "@, 0);
    lemma_begins_otherwise(s, "rm "@, 0);
    lemma_begins_otherwise(s, "mkdir "@, 0);
    lemma_begins_otherwise(s, "ls "@, 0);
}

proof fn lemma_runproc(rest: Seq<char>)
    ensures
        command_of("runproc "@ + rest) == CommandView::RunProc(
            match parsed_number(trimmed(rest), u8::MAX as nat) {
                Some(id) => Some(id as u8),
                None => None,
            },
        ),
{
    lemma_prefixes();
    let p = "runproc "@;
    let s = p + rest;
    lemma_line(p, rest);
    lemma_begins_otherwise(s, "addneuron "@, 0);
    lemma_begins_otherwise(s, "addsynapse "@, 0);
    lemma_begins_otherwise(s, "stim "@, 0);
    lemma_begins_otherwise(s, "train "@, 0);
    lemma_begins_otherwise(s, "beep "@, 0);
    lemma_begins_otherwise(s, "write "@, 0);
    lemma_begins_otherwise(s, "read "@, 1);
    lemma_begins_otherwise(s, "rm "@, 1);
    lemma_begins_otherwise(s, "mkdir "@, 0);
    lemma_begins_otherwise(s, "ls "@, 0);
    lemma_begins_otherwise(s, "kill "@, 0);
}

proof fn lemma_pixel(rest: Seq<char>)
    ensures
        command_of("pixel "@ + rest) == CommandView::Pixel(two_numbers(rest)),
{
    lemma_prefixes();
    let p = "pixel "@;
    let s = p + rest;
    lemma_line(p, rest);
    lemma_begins_otherwise(s, "addneuron "@, 0);
    lemma_begins_otherwise(s, "addsynapse "@, 0);
    lemma_begins_otherwise(s, "stim "@, 0);
    lemma_begins_otherwise(s, "train "@, 0);
    lemma_begins_otherwise(s, "beep "@, 0);
    lemma_begins_otherwise(s, "write "@, 0);
    lemma_begins_otherwise(s, "read "@, 0);
    lemma_begins_otherwise(s, "rm "@, 0);
    lemma_begins_otherwise(s, "mkdir "@, 0);
    lemma_begins_otherwise(s, "ls "@, 0);
    lemma_begins_otherwise(s, "kill "@, 0);
    lemma_begins_otherwise(s, "runproc "@, 0);
}

proof fn lemma_line_command(rest: Seq<char>)
    ensures
        command_of("line "@ + rest) == CommandView::Line(four_numbers(rest)),
{
    lemma_prefixes();
    let p = "line "@;
    let s = p + rest;
    lemma_line(p, rest);
    lemma_begins_otherwise(s, "addneuron "@, 0);
    lemma_begins_otherwise(s, "addsynapse "@, 0);
    lemma_begins_otherwise(s, "stim "@, 0);
    lemma_begins_otherwise(s, "train "@, 0);
    lemma_begins_otherwise(s, "beep "@, 0);
    lemma_begins_otherwise(s, "write "@, 0);
    lemma_begins_otherwise(s, "read "@, 0);
    lemma_begins_otherwise(s, "rm "@, 0);
    lemma_begins_otherwise(s, "mkdir "@, 0);
    lemma_begins_otherwise(s, "ls "@, 1);
    lemma_begins_otherwise(s, "kill "@, 0);
    lemma_begins_otherwise(s, "runproc "@, 0);
    lemma_begins_otherwise(s, "pixel "@, 0);
}

proof fn lemma_fillrect(rest: Seq<char>)
    ensures
        command_of("fillrect "@ + rest) == CommandView::FillRect(four_numbers(rest)),
{
    lemma_prefixes();
    let p = "fillrect "@;
    let s = p + rest;
    lemma_line(p, rest);
    lemma_begins_otherwise(s, "addneuron "@, 0);
    lemma_begins_otherwise(s, "addsynapse "@, 0);
    lemma_begins_otherwise(s, "stim "@, 0);
    lemma_begins_otherwise(s, "train "@, 0);
    lemma_begins_otherwise(s, "beep "@, 0);
    lemma_begins_otherwise(s, "write "@, 0);
    lemma_begins_otherwise(s, "read "@, 0);
    lemma_begins_otherwise(s, "rm "@, 0);
    lemma_begins_otherwise(s, "mkdir "@, 0);
    lemma_begins_otherwise(s, "ls "@, 0);
    lemma_begins_otherwise(s, "kill "@, 0);
    lemma_begins_otherwise(s, "runproc "@, 0);
    lemma_begins_otherwise(s, "pixel "@, 0);
    lemma_begins_otherwise(s, "line "@, 0);
}

proof fn lemma_rect(rest: Seq<char>)
    ensures
        command_of("rect "@ + rest) == CommandView::Rect(four_numbers(rest)),
{
    lemma_prefixes();
    let p = "rect "@;
    let s = p + rest;
    lemma_line(p, rest);
    lemma_begins_otherwise(s, "addneuron "@, 0);
    lemma_begins_otherwise(s, "addsynapse "@, 0);
    lemma_begins_otherwise(s, "stim "@, 0);
    lemma_begins_otherwise(s, "train "@, 0);
    lemma_begins_otherwise(s, "beep "@, 0);
    lemma_begins_otherwise(s, "write "@, 0);
    lemma_begins_otherwise(s, "read "@, 2);
    lemma_begins_otherwise(s, "rm "@, 1);
    lemma_begins_otherwise(s, "mkdir "@, 0);
    lemma_begins_otherwise(s, "ls "@, 0);
    lemma_begins_otherwise(s, "kill "@, 0);
    lemma_begins_otherwise(s, "runproc "@, 1);
    lemma_begins_otherwise(s, "pixel "@, 0);
    lemma_begins_otherwise(s, "line "@, 0);
    lemma_begins_otherwise(s, "fillrect "@, 0);
}

/// Words of decimal digits are read as the numbers that they stand for.
proof fn lemma_number_word(n: nat, rest: Seq<char>)
    requires
        rest.len() > 0 ==> is_space(rest[0]),
    ensures
        words(decimal_text(n) + rest) == seq![decimal_text(n)] + words(rest),
        words(" "@ + decimal_text(n) + rest) == seq![decimal_text(n)] + words(rest),
        words(Seq::<char>::empty()) == Seq::<Seq<char>>::empty(),
{
    let w = decimal_text(n);
    law_decimal_has_digits_alone(n);
    assert forall|i: int| 0 <= i < w.len() implies !is_space(#[trigger] w[i]) by {
        assert('0' <= w[i] && w[i] <= '9');
    }
    reveal_strlit(" ");
    let none = Seq::<char>::empty();
    law_white_space_separates_words(none, w, rest);
    assert(none + w + rest == w + rest);
    law_white_space_separates_words(" "@, w, rest);
}

/// Four numbers with spaces between them.
pub open spec fn four_texts(a: usize, b: usize, c: usize, d: usize) -> Seq<char> {
    decimal_text(a as nat) + (" "@ + decimal_text(b as nat) + (" "@ + decimal_text(c as nat) + (" "@
        + decimal_text(d as nat) + Seq::empty())))
}

/// Two numbers with a space between them.
pub open spec fn two_texts(a: usize, b: usize) -> Seq<char> {
    decimal_text(a as nat) + (" "@ + decimal_text(b as nat) + Seq::empty())
}

proof fn lemma_four_numbers(a: usize, b: usize, c: usize, d: usize)
    ensures
        four_numbers(four_texts(a, b, c, d)) == Some((a, b, c, d)),
        two_numbers(two_texts(a, b)) == Some((a, b)),
{
    reveal_strlit(" ");
    let none = Seq::<char>::empty();
    let ta = decimal_text(a as nat);
    let tb = decimal_text(b as nat);
    let tc = decimal_text(c as nat);
    let td = decimal_text(d as nat);
    let rd = " "@ + td + none;
    let rc = " "@ + tc + rd;
    let rb = " "@ + tb + rc;
    lemma_number_word(d as nat, none);
    lemma_number_word(c as nat, rd);
    lemma_number_word(b as nat, rc);
    lemma_number_word(a as nat, rb);
    let all = words(four_texts(a, b, c, d));
    assert(all == seq![ta] + (seq![tb] + (seq![tc] + (seq![td] + Seq::<Seq<char>>::empty()))));
    assert(all.len() == 4);
    assert(all[0] == ta && all[1] == tb && all[2] == tc && all[3] == td);
    let sb = " "@ + tb + none;
    lemma_number_word(b as nat, none);
    lemma_number_word(a as nat, sb);
    let two = words(two_texts(a, b));
    assert(two == seq![ta] + (seq![tb] + Seq::<Seq<char>>::empty()));
    assert(two.len() == 2);
    assert(two[0] == ta && two[1] == tb);
    law_decimal_reads_back(a as nat, usize::MAX as nat);
    law_decimal_reads_back(b as nat, usize::MAX as nat);
    law_decimal_reads_back(c as nat, usize::MAX as nat);
    law_decimal_reads_back(d as nat, usize::MAX as nat);
}

/// The numbers of a drawing command are taken in the order in which they are typed.
pub proof fn law_drawing_commands_take_their_numbers(a: usize, b: usize, c: usize, d: usize)
    ensures
        command_of("pixel "@ + two_texts(a, b)) == CommandView::Pixel(Some((a, b))),
        command_of("line "@ + four_texts(a, b, c, d)) == CommandView::Line(Some((a, b, c, d))),
        command_of("rect "@ + four_texts(a, b, c, d)) == CommandView::Rect(Some((a, b, c, d))),
        command_of("fillrect "@ + four_texts(a, b, c, d)) == CommandView::FillRect(
            Some((a, b, c, d)),
        ),
{
    lemma_four_numbers(a, b, c, d);
    lemma_pixel(two_texts(a, b));
    lemma_line_command(four_texts(a, b, c, d));
    lemma_rect(four_texts(a, b, c, d));
    lemma_fillrect(four_texts(a, b, c, d));
}

/// A text of digits has nothing to trim.
proof fn lemma_digits_trimmed(n: nat)
    ensures
        trimmed(decimal_text(n)) == decimal_text(n),
{
    let w = decimal_text(n);
    let none = Seq::<char>::empty();
    law_decimal_has_digits_alone(n);
    assert('0' <= w[0] && w[0] <= '9');
    assert('0' <= w[w.len() - 1] && w[w.len() - 1] <= '9');
    crate::text::law_trimming_keeps_the_middle(none, w, none);
    assert(none + w + none == w);
}

/// A command with one number takes that number.
pub proof fn law_numbered_commands_take_their_number(f: u32, id: usize, p: u8)
    ensures
        command_of("beep "@ + decimal_text(f as nat)) == CommandView::Beep(Some(f)),
        command_of("kill "@ + decimal_text(id as nat)) == CommandView::Kill(Some(id)),
        command_of("runproc "@ + decimal_text(p as nat)) == CommandView::RunProc(Some(p)),
{
    lemma_digits_trimmed(f as nat);
    lemma_digits_trimmed(id as nat);
    lemma_digits_trimmed(p as nat);
    law_decimal_reads_back(f as nat, u32::MAX as nat);
    law_decimal_reads_back(id as nat, usize::MAX as nat);
    law_decimal_reads_back(p as nat, u8::MAX as nat);
    lemma_beep(decimal_text(f as nat));
    lemma_kill(decimal_text(id as nat));
    lemma_runproc(decimal_text(p as nat));
}

/// A command on a file or a directory takes its name as it was typed, without white
/// space around it.
pub proof fn law_file_commands_take_their_name(a: Seq<char>, name: Seq<char>, b: Seq<char>)
    requires
        crate::text::all_space(a),
        crate::text::all_space(b),
        name.len() > 0 ==> !is_space(name[0]) && !is_space(name.last()),
    ensures
        command_of("read "@ + (a + name + b)) == CommandView::Read(name),
        command_of("rm "@ + (a + name + b)) == CommandView::Remove(name),
        command_of("mkdir "@ + (a + name + b)) == CommandView::MakeDir(name),
        command_of("ls "@ + (a + name + b)) == CommandView::List(Some(name)),
{
    let rest = a + name + b;
    crate::text::law_trimming_keeps_the_middle(a, name, b);
    lemma_read(rest);
    lemma_rm(rest);
    lemma_mkdir(rest);
    lemma_ls(rest);
}

/// The text of a write command is everything behind the space that ends the name, as it
/// was typed.
pub proof fn law_write_command_takes_name_and_text(name: Seq<char>, text: Seq<char>)
    requires
        !name.contains(' '),
    ensures
        command_of("write "@ + (name + " "@ + text)) == CommandView::Write(Some((name, text))),
        command_of("write "@ + name) == CommandView::Write(None),
{
    reveal_strlit(" ");
    let rest = name + " "@ + text;
    lemma_write(rest);
    lemma_write(name);
    lemma_first_space(name, text);
    assert(rest.take(name.len() as int) == name);
    assert(rest.skip(name.len() as int + 1) == text);
}

proof fn lemma_first_space(name: Seq<char>, text: Seq<char>)
    requires
        !name.contains(' '),
    ensures
        first_index(name + " "@ + text, ' ') == Some(name.len() as int),
        first_index(name, ' ') is None,
    decreases name.len(),
{
    reveal_strlit(" ");
    let rest = name + " "@ + text;
    crate::text::lemma_first_index(rest, ' ');
    crate::text::lemma_first_index(name, ' ');
    assert(rest[name.len() as int] == ' ');
    if let Some(i) = first_index(rest, ' ') {
        if i < name.len() {
            assert(name[i] == ' ');
        }
    }
}

/// A drawing command wants as many numbers as it has, no fewer and no more, and each
/// word a number.
pub proof fn law_drawing_commands_want_their_numbers(rest: Seq<char>, i: int)
    ensures
        words(rest).len() != 2 || 0 <= i < 2 && parsed_number(words(rest)[i], usize::MAX as nat) is None
            ==> command_of("pixel "@ + rest) == CommandView::Pixel(None),
        words(rest).len() != 4 || 0 <= i < 4 && parsed_number(words(rest)[i], usize::MAX as nat) is None
            ==> command_of("line "@ + rest) == CommandView::Line(None) && command_of(
            "rect "@ + rest,
        ) == CommandView::Rect(None) && command_of("fillrect "@ + rest) == CommandView::FillRect(
            None,
        ),
{
    lemma_pixel(rest);
    lemma_line_command(rest);
    lemma_rect(rest);
    lemma_fillrect(rest);
}

/// A command with one number wants a number that is not too large.
pub proof fn law_numbered_commands_want_a_number(rest: Seq<char>)
    ensures
        parsed_number(trimmed(rest), 0xFFFF_FFFF) is None ==> command_of("beep "@ + rest)
            == CommandView::Beep(None),
        parsed_number(trimmed(rest), usize::MAX as nat) is None ==> command_of("kill "@ + rest)
            == CommandView::Kill(None),
        parsed_number(trimmed(rest), 255) is None ==> command_of("runproc "@ + rest)
            == CommandView::RunProc(None),
{
    lemma_beep(rest);
    lemma_kill(rest);
    lemma_runproc(rest);
}

} // verus!
