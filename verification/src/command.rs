//! The shell's commands: reading them from a line.

use crate::numbers::{parse_number, parsed_number};
use crate::text::{
    begins_with, first_index, owned, same_text, split_once, split_whitespace, strip_prefix,
    texts_view, trim, trimmed, words,
};
use vstd::prelude::*;

verus! {

/// Four numbers of a drawing command.
pub type Quad = (usize, usize, usize, usize);

/// A command that was entered. Where its arguments are not understood, they are
/// `None`.
pub enum Command {
    Empty,
    Help,
    Usertest,
    List(Option<String>),
    About,
    Tasks,
    Spawn,
    Neurons,
    Train,
    Save,
    Net,
    Mouse,
    Date,
    SpeakerStatus,
    Silence,
    Lspci,
    Nic,
    NicInfo,
    SendPacket,
    RecvPacket,
    Draw,
    StopDraw,
    Clear,
    /// A command of the network, passed on as it is.
    Network(String),
    Beep(Option<u32>),
    Write(Option<(String, String)>),
    Read(String),
    Remove(String),
    MakeDir(String),
    Kill(Option<usize>),
    RunProc(Option<u8>),
    Pixel(Option<(usize, usize)>),
    Line(Option<Quad>),
    FillRect(Option<Quad>),
    Rect(Option<Quad>),
    Unknown(String),
}

/// A command as a mathematical value.
pub enum CommandView {
    Empty,
    Help,
    Usertest,
    List(Option<Seq<char>>),
    About,
    Tasks,
    Spawn,
    Neurons,
    Train,
    Save,
    Net,
    Mouse,
    Date,
    SpeakerStatus,
    Silence,
    Lspci,
    Nic,
    NicInfo,
    SendPacket,
    RecvPacket,
    Draw,
    StopDraw,
    Clear,
    Network(Seq<char>),
    Beep(Option<u32>),
    Write(Option<(Seq<char>, Seq<char>)>),
    Read(Seq<char>),
    Remove(Seq<char>),
    MakeDir(Seq<char>),
    Kill(Option<usize>),
    RunProc(Option<u8>),
    Pixel(Option<(usize, usize)>),
    Line(Option<Quad>),
    FillRect(Option<Quad>),
    Rect(Option<Quad>),
    Unknown(Seq<char>),
}

impl Command {
    pub open spec fn view(self) -> CommandView {
        match self {
            Command::Empty => CommandView::Empty,
            Command::Help => CommandView::Help,
            Command::Usertest => CommandView::Usertest,
            Command::List(Some(d)) => CommandView::List(Some(d@)),
            Command::List(None) => CommandView::List(None),
            Command::About => CommandView::About,
            Command::Tasks => CommandView::Tasks,
            Command::Spawn => CommandView::Spawn,
            Command::Neurons => CommandView::Neurons,
            Command::Train => CommandView::Train,
            Command::Save => CommandView::Save,
            Command::Net => CommandView::Net,
            Command::Mouse => CommandView::Mouse,
            Command::Date => CommandView::Date,
            Command::SpeakerStatus => CommandView::SpeakerStatus,
            Command::Silence => CommandView::Silence,
            Command::Lspci => CommandView::Lspci,
            Command::Nic => CommandView::Nic,
            Command::NicInfo => CommandView::NicInfo,
            Command::SendPacket => CommandView::SendPacket,
            Command::RecvPacket => CommandView::RecvPacket,
            Command::Draw => CommandView::Draw,
            Command::StopDraw => CommandView::StopDraw,
            Command::Clear => CommandView::Clear,
            Command::Network(s) => CommandView::Network(s@),
            Command::Beep(f) => CommandView::Beep(f),
            Command::Write(Some((n, t))) => CommandView::Write(Some((n@, t@))),
            Command::Write(None) => CommandView::Write(None),
            Command::Read(n) => CommandView::Read(n@),
            Command::Remove(n) => CommandView::Remove(n@),
            Command::MakeDir(n) => CommandView::MakeDir(n@),
            Command::Kill(id) => CommandView::Kill(id),
            Command::RunProc(id) => CommandView::RunProc(id),
            Command::Pixel(p) => CommandView::Pixel(p),
            Command::Line(q) => CommandView::Line(q),
            Command::FillRect(q) => CommandView::FillRect(q),
            Command::Rect(q) => CommandView::Rect(q),
            Command::Unknown(s) => CommandView::Unknown(s@),
        }
    }
}

/// The `i`-th word of a text as a number that fits a `usize`.
pub open spec fn number_word(s: Seq<char>, i: int) -> Option<nat> {
    parsed_number(words(s)[i], usize::MAX as nat)
}

/// Two numbers, and nothing else.
pub open spec fn two_numbers(s: Seq<char>) -> Option<(usize, usize)> {
    if words(s).len() != 2 {
        None
    } else {
        match (number_word(s, 0), number_word(s, 1)) {
            (Some(a), Some(b)) => Some((a as usize, b as usize)),
            _ => None,
        }
    }
}

/// Four numbers, and nothing else.
pub open spec fn four_numbers(s: Seq<char>) -> Option<Quad> {
    if words(s).len() != 4 {
        None
    } else {
        match (number_word(s, 0), number_word(s, 1), number_word(s, 2), number_word(s, 3)) {
            (Some(a), Some(b), Some(c), Some(d)) => Some(
                (a as usize, b as usize, c as usize, d as usize),
            ),
            _ => None,
        }
    }
}

/// The file name and the text of a write command.
pub open spec fn write_args(s: Seq<char>) -> Option<(Seq<char>, Seq<char>)> {
    match first_index(s, ' ') {
        Some(i) => Some((s.take(i), s.skip(i + 1))),
        None => None,
    }
}

/// What follows a prefix.
pub open spec fn after(s: Seq<char>, p: Seq<char>) -> Seq<char> {
    s.skip(p.len() as int)
}

/// The command with arguments that a line stands for.
pub open spec fn command_with_args(s: Seq<char>) -> CommandView {
    if begins_with(s, "addneuron "@) || begins_with(s, "addsynapse "@) || begins_with(s, "stim "@)
        || begins_with(s, "train "@) {
        CommandView::Network(s)
    } else if begins_with(s, "beep "@) {
        CommandView::Beep(
            match parsed_number(trimmed(after(s, "beep "@)), u32::MAX as nat) {
                Some(f) => Some(f as u32),
                None => None,
            },
        )
    } else if begins_with(s, "write "@) {
        CommandView::Write(write_args(after(s, "write "@)))
    } else if begins_with(s, "read "@) {
        CommandView::Read(trimmed(after(s, "read "@)))
    } else if begins_with(s, "rm "@) {
        CommandView::Remove(trimmed(after(s, "rm "@)))
    } else if begins_with(s, "mkdir "@) {
        CommandView::MakeDir(trimmed(after(s, "mkdir "@)))
    } else if begins_with(s, "ls "@) {
        CommandView::List(Some(trimmed(after(s, "ls "@))))
    } else if begins_with(s, "kill "@) {
        CommandView::Kill(
            match parsed_number(trimmed(after(s, "kill "@)), usize::MAX as nat) {
                Some(id) => Some(id as usize),
                None => None,
            },
        )
    } else if begins_with(s, "runproc "@) {
        CommandView::RunProc(
            match parsed_number(trimmed(after(s, "runproc "@)), u8::MAX as nat) {
                Some(id) => Some(id as u8),
                None => None,
            },
        )
    } else if begins_with(s, "pixel "@) {
        CommandView::Pixel(two_numbers(after(s, "pixel "@)))
    } else if begins_with(s, "line "@) {
        CommandView::Line(four_numbers(after(s, "line "@)))
    } else if begins_with(s, "fillrect "@) {
        CommandView::FillRect(four_numbers(after(s, "fillrect "@)))
    } else if begins_with(s, "rect "@) {
        CommandView::Rect(four_numbers(after(s, "rect "@)))
    } else {
        CommandView::Unknown(s)
    }
}

/// The command that a line stands for.
pub open spec fn command_of(s: Seq<char>) -> CommandView {
    if s == ""@ {
        CommandView::Empty
    } else if s == "help"@ {
        CommandView::Help
    } else if s == "usertest"@ {
        CommandView::Usertest
    } else if s == "ls"@ {
        CommandView::List(None)
    } else if s == "about"@ {
        CommandView::About
    } else if s == "tasks"@ {
        CommandView::Tasks
    } else if s == "spawn"@ {
        CommandView::Spawn
    } else if s == "neurons"@ {
        CommandView::Neurons
    } else if s == "train"@ {
        CommandView::Train
    } else if s == "save"@ {
        CommandView::Save
    } else if s == "net"@ {
        CommandView::Net
    } else if s == "mouse"@ {
        CommandView::Mouse
    } else if s == "date"@ {
        CommandView::Date
    } else if s == "speakerstatus"@ {
        CommandView::SpeakerStatus
    } else if s == "silence"@ {
        CommandView::Silence
    } else if s == "lspci"@ {
        CommandView::Lspci
    } else if s == "nic"@ {
        CommandView::Nic
    } else if s == "nicinfo"@ {
        CommandView::NicInfo
    } else if s == "sendpacket"@ {
        CommandView::SendPacket
    } else if s == "recvpacket"@ {
        CommandView::RecvPacket
    } else if s == "draw"@ {
        CommandView::Draw
    } else if s == "stopdraw"@ {
        CommandView::StopDraw
    } else if s == "clear"@ {
        CommandView::Clear
    } else {
        command_with_args(s)
    }
}

fn parse_usize(s: &str) -> (r: Option<usize>)
    ensures
        match r {
            Some(v) => parsed_number(s@, usize::MAX as nat) == Some(v as nat),
            None => parsed_number(s@, usize::MAX as nat) is None,
        },
{
    match parse_number(s, usize::MAX as u64) {
        Some(v) => Some(v as usize),
        None => None,
    }
}

fn parse_two(rest: &str) -> (r: Option<(usize, usize)>)
    ensures
        r == two_numbers(rest@),
{
    let parts = split_whitespace(rest);
    assert(texts_view(parts@).len() == parts@.len());
    if parts.len() != 2 {
        return None;
    }
    assert(words(rest@)[0] == parts@[0]@);
    assert(words(rest@)[1] == parts@[1]@);
    match (parse_usize(parts[0].as_str()), parse_usize(parts[1].as_str())) {
        (Some(a), Some(b)) => Some((a, b)),
        _ => None,
    }
}

fn parse_four(rest: &str) -> (r: Option<Quad>)
    ensures
        r == four_numbers(rest@),
{
    let parts = split_whitespace(rest);
    assert(texts_view(parts@).len() == parts@.len());
    if parts.len() != 4 {
        return None;
    }
    assert(words(rest@)[0] == parts@[0]@);
    assert(words(rest@)[1] == parts@[1]@);
    assert(words(rest@)[2] == parts@[2]@);
    assert(words(rest@)[3] == parts@[3]@);
    match (
        parse_usize(parts[0].as_str()),
        parse_usize(parts[1].as_str()),
        parse_usize(parts[2].as_str()),
        parse_usize(parts[3].as_str()),
    ) {
        (Some(a), Some(b), Some(c), Some(d)) => Some((a, b, c, d)),
        _ => None,
    }
}

fn parse_args(s: &str) -> (r: Command)
    ensures
        r@ == command_with_args(s@),
{
    if strip_prefix(s, "addneuron ").is_some() || strip_prefix(s, "addsynapse ").is_some()
        || strip_prefix(s, "stim ").is_some() || strip_prefix(s, "train ").is_some() {
        Command::Network(owned(s))
    } else if let Some(rest) = strip_prefix(s, "beep ") {
        Command::Beep(
            match parse_number(trim(rest), u32::MAX as u64) {
                Some(f) => Some(f as u32),
                None => None,
            },
        )
    } else if let Some(rest) = strip_prefix(s, "write ") {
        match split_once(rest, ' ') {
            Some((name, text)) => Command::Write(Some((owned(name), owned(text)))),
            None => Command::Write(None),
        }
    } else if let Some(rest) = strip_prefix(s, "read ") {
        Command::Read(owned(trim(rest)))
    } else if let Some(rest) = strip_prefix(s, "rm ") {
        Command::Remove(owned(trim(rest)))
    } else if let Some(rest) = strip_prefix(s, "mkdir ") {
        Command::MakeDir(owned(trim(rest)))
    } else if let Some(rest) = strip_prefix(s, "ls ") {
        Command::List(Some(owned(trim(rest))))
    } else if let Some(rest) = strip_prefix(s, "kill ") {
        Command::Kill(parse_usize(trim(rest)))
    } else if let Some(rest) = strip_prefix(s, "runproc ") {
        Command::RunProc(
            match parse_number(trim(rest), u8::MAX as u64) {
                Some(id) => Some(id as u8),
                None => None,
            },
        )
    } else if let Some(rest) = strip_prefix(s, "pixel ") {
        Command::Pixel(parse_two(rest))
    } else if let Some(rest) = strip_prefix(s, "line ") {
        Command::Line(parse_four(rest))
    } else if let Some(rest) = strip_prefix(s, "fillrect ") {
        Command::FillRect(parse_four(rest))
    } else if let Some(rest) = strip_prefix(s, "rect ") {
        Command::Rect(parse_four(rest))
    } else {
        Command::Unknown(owned(s))
    }
}

/// Reads the command that a line stands for.
pub fn parse_command(s: &str) -> (r: Command)
    ensures
        r@ == command_of(s@),
{
    if same_text(s, "") {
        Command::Empty
    } else if same_text(s, "help") {
        Command::Help
    } else if same_text(s, "usertest") {
        Command::Usertest
    } else if same_text(s, "ls") {
        Command::List(None)
    } else if same_text(s, "about") {
        Command::About
    } else if same_text(s, "tasks") {
        Command::Tasks
    } else if same_text(s, "spawn") {
        Command::Spawn
    } else if same_text(s, "neurons") {
        Command::Neurons
    } else if same_text(s, "train") {
        Command::Train
    } else if same_text(s, "save") {
        Command::Save
    } else if same_text(s, "net") {
        Command::Net
    } else if same_text(s, "mouse") {
        Command::Mouse
    } else if same_text(s, "date") {
        Command::Date
    } else if same_text(s, "speakerstatus") {
        Command::SpeakerStatus
    } else if same_text(s, "silence") {
        Command::Silence
    } else if same_text(s, "lspci") {
        Command::Lspci
    } else if same_text(s, "nic") {
        Command::Nic
    } else if same_text(s, "nicinfo") {
        Command::NicInfo
    } else if same_text(s, "sendpacket") {
        Command::SendPacket
    } else if same_text(s, "recvpacket") {
        Command::RecvPacket
    } else if same_text(s, "draw") {
        Command::Draw
    } else if same_text(s, "stopdraw") {
        Command::StopDraw
    } else if same_text(s, "clear") {
        Command::Clear
    } else {
        parse_args(s)
    }
}

/// A line with a space in it is none of the commands without arguments.
pub proof fn lemma_line_with_space(s: Seq<char>, i: int)
    requires
        0 <= i < s.len(),
        s[i] == ' ',
    ensures
        command_of(s) == command_with_args(s),
{
    reveal_strlit("");
    reveal_strlit("help");
    reveal_strlit("usertest");
    reveal_strlit("ls");
    reveal_strlit("about");
    reveal_strlit("tasks");
    reveal_strlit("spawn");
    reveal_strlit("neurons");
    reveal_strlit("train");
    reveal_strlit("save");
    reveal_strlit("net");
    reveal_strlit("mouse");
    reveal_strlit("date");
    reveal_strlit("speakerstatus");
    reveal_strlit("silence");
    reveal_strlit("lspci");
    reveal_strlit("nic");
    reveal_strlit("nicinfo");
    reveal_strlit("sendpacket");
    reveal_strlit("recvpacket");
    reveal_strlit("draw");
    reveal_strlit("stopdraw");
    reveal_strlit("clear");
}

/// Lines that begin with a word of the network's language and a space are passed on
/// as they are, `train` with arguments among them; `train` alone is not.
pub proof fn law_network_lines_are_passed_on(s: Seq<char>)
    ensures
        begins_with(s, "addneuron "@) || begins_with(s, "addsynapse "@) || begins_with(
            s,
            "stim "@,
        ) || begins_with(s, "train "@) ==> command_of(s) == CommandView::Network(s),
        command_of("train"@) == CommandView::Train,
{
    reveal_strlit("addneuron ");
    reveal_strlit("addsynapse ");
    reveal_strlit("stim ");
    reveal_strlit("train ");
    if begins_with(s, "addneuron "@) {
        assert(s[9] == s.take(10)[9]);
        lemma_line_with_space(s, 9);
    } else if begins_with(s, "addsynapse "@) {
        assert(s[10] == s.take(11)[10]);
        lemma_line_with_space(s, 10);
    } else if begins_with(s, "stim "@) {
        assert(s[4] == s.take(5)[4]);
        lemma_line_with_space(s, 4);
    } else if begins_with(s, "train "@) {
        assert(s[5] == s.take(6)[5]);
        lemma_line_with_space(s, 5);
    }
    assert(command_of("train"@) == CommandView::Train) by {
        reveal_strlit("");
        reveal_strlit("help");
        reveal_strlit("usertest");
        reveal_strlit("ls");
        reveal_strlit("about");
        reveal_strlit("tasks");
        reveal_strlit("spawn");
        reveal_strlit("neurons");
        reveal_strlit("train");
        assert("train"@[0] == 't' && "about"@[0] == 'a' && "spawn"@[0] == 's');
        assert("train"@[1] == 'r' && "tasks"@[1] == 'a');
        assert("train"@.len() == 5 && ""@.len() == 0 && "help"@.len() == 4 && "usertest"@.len()
            == 8 && "ls"@.len() == 2 && "neurons"@.len() == 7);
    }
}

} // verus!
