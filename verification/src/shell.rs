//! The interactive shell: editing a line, running commands, and what they print.

use crate::command::{command_of, parse_command, Command, CommandView};
use crate::console;
use crate::console::{
    backspaced, char_written, cleared, law_texts_run_on, line_drawn, on_screen, pixel_set, rect_drawn, screen_ok,
    screen_view, text_written, Console, ConsoleView,
};
use crate::disk::{writes_view, DiskView, SectorCache, SectorWrite, WriteView};
use crate::fs;
use crate::fs::{
    delete_plan, file_contents, listing, make_dir_plan, plan_view, write_plan, PlanView,
};
use crate::mouse::Mouse;
use crate::neurons::{run_training_trial, Neuron, Trial};
use crate::numbers::{decimal, decimal_text};
use crate::pci::{nic_of, PciBus, PciDevice};
use crate::process::{run_result, PageTableSwitch, ProcessTable, TableView};
use crate::replies::{
    help_reply, help_text, labelled, listing_text, lspci_reply, lspci_text, mouse_reply, mouse_text,
    nic_reply, nic_text, point_reply, point_text, print_listing, size_reply, size_text, tasks_reply,
    tasks_text,
};
use crate::step::Step;
use crate::tasks::{live_reports, task_killed, TaskTable, TasksView};
use crate::text::{is_control, is_control_char, lossy_text, owned, shown_text, trim, trimmed};
use crate::usertest::{entry_state, Ring3Entry, UserTest};
use vstd::prelude::*;
use vstd::string::StringExecFns;
use vstd::utf8::encode_utf8;

verus! {

/// The line that is being entered.
pub struct Shell {
    pub line: Vec<char>,
}

/// What entering a character comes to: the line, the screen, and the command that
/// was completed.
pub open spec fn char_entered(line: Seq<char>, screen: Option<ConsoleView>, c: char) -> (
    Seq<char>,
    Option<ConsoleView>,
    Option<Seq<char>>,
) {
    if c == '\n' || c == '\r' {
        (
            Seq::empty(),
            on_screen(screen, |v: ConsoleView| char_written(v, '\n')),
            Some(trimmed(line)),
        )
    } else if c == '\u{8}' || c == '\u{7f}' {
        if line.len() > 0 {
            (line.drop_last(), on_screen(screen, |v: ConsoleView| backspaced(v)), None)
        } else {
            (line, screen, None)
        }
    } else if !is_control_char(c) {
        (line.push(c), on_screen(screen, |v: ConsoleView| char_written(v, c)), None)
    } else {
        (line, screen, None)
    }
}

/// The text of characters.
fn text_of(chars: &Vec<char>) -> (r: String)
    ensures
        r@ == chars@,
{
    let mut out = String::new();
    let mut i: usize = 0;
    while i < chars.len()
        invariant
            i <= chars@.len(),
            out@ == chars@.take(i as int),
        decreases chars@.len() - i,
    {
        out.push(chars[i]);
        i += 1;
    }
    assert(chars@.take(chars@.len() as int) == chars@);
    out
}

/// Prints the first prompt.
pub fn init(screen: &mut Option<Console>)
    requires
        screen_ok(*old(screen)),
    ensures
        screen_ok(*final(screen)),
        screen_view(*final(screen)) == on_screen(
            screen_view(*old(screen)),
            |v: ConsoleView| text_written(v, "> "@),
        ),
{
    console::write_str(screen, "> ");
}

/// Prints the prompt.
pub fn show_prompt(screen: &mut Option<Console>)
    requires
        screen_ok(*old(screen)),
    ensures
        screen_ok(*final(screen)),
        screen_view(*final(screen)) == on_screen(
            screen_view(*old(screen)),
            |v: ConsoleView| text_written(v, "> "@),
        ),
{
    console::write_str(screen, "> ");
}

/// The screen once a command has ended: what is said of it, and then the prompt.
pub open spec fn command_ended(screen: Option<ConsoleView>, reply: Seq<char>) -> Option<
    ConsoleView,
> {
    on_screen(screen, |v: ConsoleView| text_written(v, reply + "> "@))
}

/// Ends a command: prints what is said of it, and then the prompt.
pub fn end_command(screen: &mut Option<Console>, reply: &str)
    requires
        screen_ok(*old(screen)),
    ensures
        screen_ok(*final(screen)),
        screen_view(*final(screen)) == command_ended(screen_view(*old(screen)), reply@),
{
    let ghost before = screen_view(*screen);
    console::write_str(screen, reply);
    show_prompt(screen);
    proof {
        if let Some(v) = before {
            law_texts_run_on(v, reply@, "> "@);
        }
    }
}

impl Shell {
    /// Nothing has been entered.
    pub fn new() -> (r: Shell)
        ensures
            r.line@ == Seq::<char>::empty(),
    {
        Shell { line: Vec::new() }
    }

    /// Takes in a character from the keyboard. A line that is completed is handed
    /// back to be run, without white space at its ends.
    pub fn on_char(&mut self, screen: &mut Option<Console>, c: char) -> (r: Option<String>)
        requires
            screen_ok(*old(screen)),
        ensures
            screen_ok(*final(screen)),
            (
                final(self).line@,
                screen_view(*final(screen)),
                match r {
                    Some(s) => Some(s@),
                    None => None,
                },
            ) == char_entered(old(self).line@, screen_view(*old(screen)), c),
    {
        if c == '\n' || c == '\r' {
            console::write_char(screen, '\n');
            let line = text_of(&self.line);
            self.line = Vec::new();
            Some(owned(trim(line.as_str())))
        } else if c == '\u{8}' || c == '\u{7f}' {
            if self.line.pop().is_some() {
                console::backspace(screen);
            }
            None
        } else if !is_control(c) {
            self.line.push(c);
            console::write_char(screen, c);
            None
        } else {
            None
        }
    }
}

/// Everything that commands act upon.
pub struct Kernel {
    pub screen: Option<Console>,
    pub mouse: Mouse,
    pub tasks: TaskTable,
    pub pci: PciBus,
    pub processes: ProcessTable,
    pub usertest: UserTest,
    /// The segment selectors that ring 3 is entered with.
    pub user_cs: u16,
    pub user_ss: u16,
}

/// Everything that commands act upon, as a mathematical value.
pub struct KernelView {
    pub screen: Option<ConsoleView>,
    pub mouse: Mouse,
    pub tasks: TasksView,
    pub pci: Seq<PciDevice>,
    pub processes: TableView,
    pub usertest: UserTest,
    pub user_cs: u16,
    pub user_ss: u16,
}

impl Kernel {
    pub open spec fn view(self) -> KernelView {
        KernelView {
            screen: screen_view(self.screen),
            mouse: self.mouse,
            tasks: self.tasks@,
            pci: self.pci.found@,
            processes: self.processes@,
            usertest: self.usertest,
            user_cs: self.user_cs,
            user_ss: self.user_ss,
        }
    }

    pub open spec fn wf(self) -> bool {
        &&& screen_ok(self.screen)
        &&& self.mouse.wf()
        &&& self.tasks.wf()
        &&& self.processes.wf()
    }
}

/// What is left to be done for a command once the kernel's own part is done. What
/// the reply then says is given by the function named after the command.
pub enum Action {
    /// Nothing.
    Done,
    /// Read this sector and run the command again.
    Need(u32),
    /// Perform these writes, then print `done`, or `failed` followed by the error
    /// and a line end.
    Store { writes: Vec<SectorWrite>, done: String, failed: String },
    /// Enter ring 3 for the user program.
    EnterRing3(Ring3Entry),
    /// Load this page table and enter ring 3 for process `id`.
    RunProcess { id: u8, switch: PageTableSwitch },
    /// Start a task.
    Spawn,
    /// Report on the fixed network.
    Neurons,
    /// Train the fixed network.
    Train,
    /// Store the learned weights.
    Save,
    /// Report on the network.
    Net,
    /// Run a command of the network.
    Network(String),
    /// Read the clock.
    Date,
    /// Read the speaker's gate.
    SpeakerStatus,
    /// Turn the speaker off.
    Silence,
    /// Play a tone.
    Beep(u32),
    /// Read the network card's registers.
    NicInfo,
    /// Send a packet.
    SendPacket,
    /// Poll for a packet.
    RecvPacket,
}

/// What is left to be done for a command, as a mathematical value.
pub enum ActionView {
    Done,
    Need(u32),
    Store { writes: Seq<WriteView>, done: Seq<char>, failed: Seq<char> },
    EnterRing3(Ring3Entry),
    RunProcess { id: u8, switch: PageTableSwitch },
    Spawn,
    Neurons,
    Train,
    Save,
    Net,
    Network(Seq<char>),
    Date,
    SpeakerStatus,
    Silence,
    Beep(u32),
    NicInfo,
    SendPacket,
    RecvPacket,
}

impl Action {
    pub open spec fn view(self) -> ActionView {
        match self {
            Action::Done => ActionView::Done,
            Action::Need(l) => ActionView::Need(l),
            Action::Store { writes, done, failed } => ActionView::Store {
                writes: writes_view(writes@),
                done: done@,
                failed: failed@,
            },
            Action::EnterRing3(e) => ActionView::EnterRing3(e),
            Action::RunProcess { id, switch } => ActionView::RunProcess { id, switch },
            Action::Spawn => ActionView::Spawn,
            Action::Neurons => ActionView::Neurons,
            Action::Train => ActionView::Train,
            Action::Save => ActionView::Save,
            Action::Net => ActionView::Net,
            Action::Network(s) => ActionView::Network(s@),
            Action::Date => ActionView::Date,
            Action::SpeakerStatus => ActionView::SpeakerStatus,
            Action::Silence => ActionView::Silence,
            Action::Beep(f) => ActionView::Beep(f),
            Action::NicInfo => ActionView::NicInfo,
            Action::SendPacket => ActionView::SendPacket,
            Action::RecvPacket => ActionView::RecvPacket,
        }
    }
}

/// The kernel after a text was printed.
pub open spec fn said(k: KernelView, s: Seq<char>) -> KernelView {
    KernelView { screen: on_screen(k.screen, |v: ConsoleView| text_written(v, s)), ..k }
}

/// What a command that changes the drive comes to.
pub open spec fn stored_result(
    k: KernelView,
    plan: PlanView,
    done: Seq<char>,
    failed: Seq<char>,
) -> (KernelView, ActionView) {
    match plan {
        Step::Need(l) => (k, ActionView::Need(l)),
        Step::Done(Ok(writes)) => (k, ActionView::Store { writes, done, failed }),
        Step::Done(Err(e)) => (said(k, failed + e + "\n"@), ActionView::Done),
    }
}

/// What a command that draws comes to.
pub open spec fn drawing_result(k: KernelView, c: CommandView) -> KernelView {
    match c {
        CommandView::Pixel(None) => said(k, "usage: pixel X Y\n"@),
        CommandView::Pixel(Some((x, y))) => said(
            KernelView {
                screen: on_screen(
                    k.screen,
                    |v: ConsoleView|
                        ConsoleView {
                            fb: pixel_set(v.fb, v.info, x as int, y as int, 255),
                            ..v
                        },
                ),
                ..k
            },
            "pixel set at "@ + point_text(x, y) + "\n"@,
        ),
        CommandView::Line(None) => said(k, "usage: line X0 Y0 X1 Y1\n"@),
        CommandView::Line(Some((x0, y0, x1, y1))) => said(
            KernelView {
                screen: on_screen(
                    k.screen,
                    |v: ConsoleView|
                        ConsoleView {
                            fb: line_drawn(
                                v.fb,
                                v.info,
                                x0 as int,
                                y0 as int,
                                x1 as int,
                                y1 as int,
                            ),
                            ..v
                        },
                ),
                ..k
            },
            "line drawn from "@ + point_text(x0, y0) + " to "@ + point_text(x1, y1) + "\n"@,
        ),
        CommandView::FillRect(None) => said(k, "usage: fillrect X Y W H\n"@),
        CommandView::FillRect(Some((x, y, w, h))) => said(
            with_rect(k, x, y, w, h, true),
            "filled rect drawn at "@ + point_text(x, y) + size_text(w, h),
        ),
        CommandView::Rect(None) => said(k, "usage: rect X Y W H\n"@),
        CommandView::Rect(Some((x, y, w, h))) => said(
            with_rect(k, x, y, w, h, false),
            "rect drawn at "@ + point_text(x, y) + size_text(w, h),
        ),
        _ => k,
    }
}

pub open spec fn with_rect(
    k: KernelView,
    x: usize,
    y: usize,
    w: usize,
    h: usize,
    filled: bool,
) -> KernelView {
    KernelView {
        screen: on_screen(
            k.screen,
            |v: ConsoleView|
                ConsoleView {
                    fb: rect_drawn(
                        v.fb,
                        v.info,
                        x as int,
                        y as int,
                        w as int,
                        h as int,
                        filled,
                    ),
                    ..v
                },
        ),
        ..k
    }
}

/// What listing a directory comes to.
#[verifier::opaque]
pub open spec fn list_result(k: KernelView, d: DiskView, dir: Option<Seq<char>>) -> (
    KernelView,
    ActionView,
) {
    match listing(d, dir) {
        Step::Need(l) => (k, ActionView::Need(l)),
        Step::Done(r) => (said(k, listing_text(r)), ActionView::Done),
    }
}

/// What reading a file comes to.
#[verifier::opaque]
pub open spec fn read_result(k: KernelView, d: DiskView, name: Seq<char>) -> (
    KernelView,
    ActionView,
) {
    match file_contents(d, name) {
        Step::Need(l) => (k, ActionView::Need(l)),
        Step::Done(Ok(data)) => (said(k, shown_text(data) + "\n"@), ActionView::Done),
        Step::Done(Err(e)) => (said(k, "read FAILED: "@ + e + "\n"@), ActionView::Done),
    }
}

/// What writing a file comes to.
#[verifier::opaque]
pub open spec fn write_result(k: KernelView, d: DiskView, name: Seq<char>, text: Seq<char>) -> (
    KernelView,
    ActionView,
) {
    stored_result(
        k,
        write_plan(d, name, encode_utf8(text)),
        "wrote "@ + decimal_text(encode_utf8(text).len()) + " bytes to '"@ + name + "'\n"@,
        "write FAILED: "@,
    )
}

/// What removing a file comes to.
#[verifier::opaque]
pub open spec fn remove_result(k: KernelView, d: DiskView, name: Seq<char>) -> (
    KernelView,
    ActionView,
) {
    stored_result(k, delete_plan(d, name), "removed '"@ + name + "'\n"@, "rm FAILED: "@)
}

/// What making a directory comes to.
#[verifier::opaque]
pub open spec fn mkdir_result(k: KernelView, d: DiskView, name: Seq<char>) -> (
    KernelView,
    ActionView,
) {
    stored_result(
        k,
        make_dir_plan(d, name),
        "created directory '"@ + name + "'\n"@,
        "mkdir FAILED: "@,
    )
}

/// What a command on files comes to.
pub open spec fn file_result(k: KernelView, d: DiskView, c: CommandView) -> (
    KernelView,
    ActionView,
) {
    match c {
        CommandView::List(dir) => list_result(k, d, dir),
        CommandView::Write(None) => (said(k, "usage: write NAME TEXT...\n"@), ActionView::Done),
        CommandView::Write(Some((name, text))) => write_result(k, d, name, text),
        CommandView::Read(name) => read_result(k, d, name),
        CommandView::Remove(name) => remove_result(k, d, name),
        CommandView::MakeDir(name) => mkdir_result(k, d, name),
        _ => (k, ActionView::Done),
    }
}

/// What killing a task comes to.
pub open spec fn kill_result(k: KernelView, id: Option<usize>) -> KernelView {
    match id {
        None => said(k, "usage: kill ID\n"@),
        Some(n) => {
            let (tasks, ok) = task_killed(k.tasks, n);
            let after = KernelView { tasks, ..k };
            if ok {
                said(after, "killed task"@ + decimal_text(n as nat) + "\n"@)
            } else {
                said(
                    after,
                    "kill FAILED -- task"@ + decimal_text(n as nat)
                        + " not found or already dead\n"@,
                )
            }
        },
    }
}

/// What running a process comes to.
pub open spec fn runproc_result(k: KernelView, id: Option<u8>) -> (KernelView, ActionView) {
    match id {
        None => (said(k, "usage: runproc ID (1 or 2)\n"@), ActionView::Done),
        Some(n) => match run_result(k.processes, n) {
            Ok((processes, switch)) => (
                KernelView { processes, ..k },
                ActionView::RunProcess { id: n, switch },
            ),
            Err(e) => (said(k, "runproc FAILED: "@ + e + "\n"@), ActionView::Done),
        },
    }
}

/// What running the user program comes to.
pub open spec fn usertest_result(k: KernelView) -> (KernelView, ActionView) {
    if k.usertest.mapped {
        (
            KernelView {
                usertest: UserTest {
                    run_count: k.usertest.run_count.wrapping_add(1),
                    ..k.usertest
                },
                ..k
            },
            ActionView::EnterRing3(entry_state(k.user_cs, k.user_ss)),
        )
    } else {
        (
            said(
                k,
                "usertest FAILED: "@
                    + "user test pages not mapped (setup() should have run at boot)"@ + "\n"@,
            ),
            ActionView::Done,
        )
    }
}

/// What entering drawing mode comes to.
pub open spec fn draw_result(k: KernelView) -> KernelView {
    said(
        KernelView {
            mouse: Mouse {
                drawing_enabled: true,
                draw_last: None,
                prev_right: false,
                ..k.mouse
            },
            ..k
        },
        "drawing mode ON -- hold left mouse button and move to draw, right-click (or 'stopdraw') to exit\n"@,
    )
}

/// What clearing the screen comes to.
pub open spec fn clear_result(k: KernelView) -> KernelView {
    KernelView { screen: on_screen(k.screen, |v: ConsoleView| cleared(v)), ..k }
}

/// What leaving drawing mode comes to.
pub open spec fn stopdraw_result(k: KernelView) -> KernelView {
    if k.mouse.drawing_enabled {
        said(
            KernelView {
                mouse: Mouse { drawing_enabled: false, draw_last: None, ..k.mouse },
                ..k
            },
            "drawing mode OFF\n"@,
        )
    } else {
        said(k, "not currently in drawing mode\n"@)
    }
}

/// What a command prints that only reports.
pub open spec fn report_text(k: KernelView, c: CommandView) -> Option<Seq<char>> {
    match c {
        CommandView::Help => Some(help_text()),
        CommandView::About => Some(
            "spikeling-os -- Spikeling's spiking-network runtime as the kernel's own control logic\n"@,
        ),
        CommandView::Tasks => Some(tasks_text(live_reports(k.tasks, k.tasks.tasks.len()))),
        CommandView::Mouse => Some(mouse_text(k.mouse.state)),
        CommandView::Lspci => Some(lspci_text(k.pci)),
        CommandView::Nic => Some(nic_text(nic_of(k.pci))),
        CommandView::Beep(None) => Some("usage: beep FREQ_HZ\n"@),
        CommandView::Unknown(s) => Some("unknown command: "@ + s + "\n"@),
        _ => None,
    }
}

/// What a command asks for that is wholly outside work.
pub open spec fn outside_work(c: CommandView) -> Option<ActionView> {
    match c {
        CommandView::Spawn => Some(ActionView::Spawn),
        CommandView::Neurons => Some(ActionView::Neurons),
        CommandView::Train => Some(ActionView::Train),
        CommandView::Save => Some(ActionView::Save),
        CommandView::Net => Some(ActionView::Net),
        CommandView::Network(s) => Some(ActionView::Network(s)),
        CommandView::Date => Some(ActionView::Date),
        CommandView::SpeakerStatus => Some(ActionView::SpeakerStatus),
        CommandView::Silence => Some(ActionView::Silence),
        CommandView::Beep(Some(f)) => Some(ActionView::Beep(f)),
        CommandView::NicInfo => Some(ActionView::NicInfo),
        CommandView::SendPacket => Some(ActionView::SendPacket),
        CommandView::RecvPacket => Some(ActionView::RecvPacket),
        _ => None,
    }
}

/// What a command comes to that changes the kernel's state.
pub open spec fn change_result(k: KernelView, d: DiskView, c: CommandView) -> (
    KernelView,
    ActionView,
) {
    match c {
        CommandView::Usertest => usertest_result(k),
        CommandView::RunProc(id) => runproc_result(k, id),
        CommandView::Kill(id) => (kill_result(k, id), ActionView::Done),
        CommandView::Draw => (draw_result(k), ActionView::Done),
        CommandView::StopDraw => (stopdraw_result(k), ActionView::Done),
        CommandView::Clear => (clear_result(k), ActionView::Done),
        CommandView::Pixel(_) => (drawing_result(k, c), ActionView::Done),
        CommandView::Line(_) => (drawing_result(k, c), ActionView::Done),
        CommandView::FillRect(_) => (drawing_result(k, c), ActionView::Done),
        CommandView::Rect(_) => (drawing_result(k, c), ActionView::Done),
        _ => file_result(k, d, c),
    }
}

/// What a command comes to.
pub open spec fn command_result(k: KernelView, d: DiskView, c: CommandView) -> (
    KernelView,
    ActionView,
) {
    match report_text(k, c) {
        Some(text) => (said(k, text), ActionView::Done),
        None => match outside_work(c) {
            Some(a) => (k, a),
            None => change_result(k, d, c),
        },
    }
}

/// Prints a text.
fn say(kernel: &mut Kernel, s: &str)
    requires
        old(kernel).wf(),
    ensures
        final(kernel).wf(),
        final(kernel)@ == said(old(kernel)@, s@),
{
    console::write_str(&mut kernel.screen, s);
}

fn store(
    kernel: &mut Kernel,
    plan: Step<u32, Result<Vec<SectorWrite>, String>>,
    done: String,
    failed: &str,
) -> (r: Action)
    requires
        old(kernel).wf(),
    ensures
        final(kernel).wf(),
        (final(kernel)@, r@) == stored_result(old(kernel)@, plan_view(plan), done@, failed@),
{
    match plan {
        Step::Need(l) => Action::Need(l),
        Step::Done(Ok(writes)) => Action::Store { writes, done, failed: owned(failed) },
        Step::Done(Err(e)) => {
            say(kernel, labelled(failed, e.as_str()).as_str());
            Action::Done
        },
    }
}

fn run_list(kernel: &mut Kernel, disk: &SectorCache, dir: Option<&str>) -> (r: Action)
    requires
        old(kernel).wf(),
    ensures
        final(kernel).wf(),
        (final(kernel)@, r@) == list_result(
            old(kernel)@,
            disk@,
            match dir {
                Some(name) => Some(name@),
                None => None,
            },
        ),
{
    reveal(list_result);
    match fs::list(disk, dir) {
        Step::Need(l) => Action::Need(l),
        Step::Done(result) => {
            say(kernel, print_listing(&result).as_str());
            Action::Done
        },
    }
}

fn run_read(kernel: &mut Kernel, disk: &SectorCache, name: &str) -> (r: Action)
    requires
        old(kernel).wf(),
    ensures
        final(kernel).wf(),
        (final(kernel)@, r@) == read_result(old(kernel)@, disk@, name@),
{
    reveal(read_result);
    match fs::read_file(disk, name) {
        Step::Need(l) => Action::Need(l),
        Step::Done(Ok(data)) => {
            let mut text = lossy_text(data.as_slice());
            text.append("\n");
            say(kernel, text.as_str());
            Action::Done
        },
        Step::Done(Err(e)) => {
            say(kernel, labelled("read FAILED: ", e.as_str()).as_str());
            Action::Done
        },
    }
}

fn run_write(kernel: &mut Kernel, disk: &SectorCache, name: &str, text: &str) -> (r: Action)
    requires
        old(kernel).wf(),
    ensures
        final(kernel).wf(),
        (final(kernel)@, r@) == write_result(old(kernel)@, disk@, name@, text@),
{
    reveal(write_result);
    let bytes = text.as_bytes();
    let plan = fs::write_file(disk, name, bytes);
    let mut done = owned("wrote ");
    done.append(decimal(bytes.len() as u64).as_str());
    done.append(" bytes to '");
    done.append(name);
    done.append("'\n");
    store(kernel, plan, done, "write FAILED: ")
}

fn run_remove(kernel: &mut Kernel, disk: &SectorCache, name: &str) -> (r: Action)
    requires
        old(kernel).wf(),
    ensures
        final(kernel).wf(),
        (final(kernel)@, r@) == remove_result(old(kernel)@, disk@, name@),
{
    reveal(remove_result);
    let plan = fs::delete_file(disk, name);
    let mut done = owned("removed '");
    done.append(name);
    done.append("'\n");
    store(kernel, plan, done, "rm FAILED: ")
}

fn run_mkdir(kernel: &mut Kernel, disk: &SectorCache, name: &str) -> (r: Action)
    requires
        old(kernel).wf(),
    ensures
        final(kernel).wf(),
        (final(kernel)@, r@) == mkdir_result(old(kernel)@, disk@, name@),
{
    reveal(mkdir_result);
    let plan = fs::make_dir(disk, name);
    let mut done = owned("created directory '");
    done.append(name);
    done.append("'\n");
    store(kernel, plan, done, "mkdir FAILED: ")
}

fn run_file_command(kernel: &mut Kernel, disk: &SectorCache, c: &Command) -> (r: Action)
    requires
        old(kernel).wf(),
    ensures
        final(kernel).wf(),
        (final(kernel)@, r@) == file_result(old(kernel)@, disk@, c@),
{
    match c {
        Command::List(Some(name)) => run_list(kernel, disk, Some(name.as_str())),
        Command::List(None) => run_list(kernel, disk, None),
        Command::Write(None) => {
            say(kernel, "usage: write NAME TEXT...\n");
            Action::Done
        },
        Command::Write(Some((name, text))) => run_write(
            kernel,
            disk,
            name.as_str(),
            text.as_str(),
        ),
        Command::Read(name) => run_read(kernel, disk, name.as_str()),
        Command::Remove(name) => run_remove(kernel, disk, name.as_str()),
        Command::MakeDir(name) => run_mkdir(kernel, disk, name.as_str()),
        _ => Action::Done,
    }
}

fn run_drawing_command(kernel: &mut Kernel, c: &Command)
    requires
        old(kernel).wf(),
    ensures
        final(kernel).wf(),
        final(kernel)@ == drawing_result(old(kernel)@, c@),
{
    match c {
        Command::Pixel(None) => say(kernel, "usage: pixel X Y\n"),
        Command::Pixel(Some((x, y))) => {
            console::draw_pixel(&mut kernel.screen, *x, *y, true);
            let mut text = owned("pixel set at ");
            text.append(point_reply(*x, *y).as_str());
            text.append("\n");
            say(kernel, text.as_str());
        },
        Command::Line(None) => say(kernel, "usage: line X0 Y0 X1 Y1\n"),
        Command::Line(Some((x0, y0, x1, y1))) => {
            console::draw_line(&mut kernel.screen, *x0, *y0, *x1, *y1);
            let mut text = owned("line drawn from ");
            text.append(point_reply(*x0, *y0).as_str());
            text.append(" to ");
            text.append(point_reply(*x1, *y1).as_str());
            text.append("\n");
            say(kernel, text.as_str());
        },
        Command::FillRect(None) => say(kernel, "usage: fillrect X Y W H\n"),
        Command::FillRect(Some((x, y, w, h))) => {
            console::draw_rect(&mut kernel.screen, *x, *y, *w, *h, true);
            let mut text = owned("filled rect drawn at ");
            text.append(point_reply(*x, *y).as_str());
            text.append(size_reply(*w, *h).as_str());
            say(kernel, text.as_str());
        },
        Command::Rect(None) => say(kernel, "usage: rect X Y W H\n"),
        Command::Rect(Some((x, y, w, h))) => {
            console::draw_rect(&mut kernel.screen, *x, *y, *w, *h, false);
            let mut text = owned("rect drawn at ");
            text.append(point_reply(*x, *y).as_str());
            text.append(size_reply(*w, *h).as_str());
            say(kernel, text.as_str());
        },
        _ => {},
    }
}

fn run_kill(kernel: &mut Kernel, id: Option<usize>)
    requires
        old(kernel).wf(),
    ensures
        final(kernel).wf(),
        final(kernel)@ == kill_result(old(kernel)@, id),
{
    match id {
        None => say(kernel, "usage: kill ID\n"),
        Some(n) => {
            if kernel.tasks.kill(n) {
                say(kernel, labelled("killed task", decimal(n as u64).as_str()).as_str());
            } else {
                let mut text = owned("kill FAILED -- task");
                text.append(decimal(n as u64).as_str());
                text.append(" not found or already dead\n");
                say(kernel, text.as_str());
            }
        },
    }
}

fn run_process(kernel: &mut Kernel, id: Option<u8>) -> (r: Action)
    requires
        old(kernel).wf(),
    ensures
        final(kernel).wf(),
        (final(kernel)@, r@) == runproc_result(old(kernel)@, id),
{
    match id {
        None => {
            say(kernel, "usage: runproc ID (1 or 2)\n");
            Action::Done
        },
        Some(n) => match kernel.processes.run(n) {
            Ok(switch) => Action::RunProcess { id: n, switch },
            Err(e) => {
                say(kernel, labelled("runproc FAILED: ", e).as_str());
                Action::Done
            },
        },
    }
}

fn run_usertest(kernel: &mut Kernel) -> (r: Action)
    requires
        old(kernel).wf(),
    ensures
        final(kernel).wf(),
        (final(kernel)@, r@) == usertest_result(old(kernel)@),
{
    match kernel.usertest.run(kernel.user_cs, kernel.user_ss) {
        Ok(entry) => Action::EnterRing3(entry),
        Err(e) => {
            say(kernel, labelled("usertest FAILED: ", e).as_str());
            Action::Done
        },
    }
}

fn report(kernel: &Kernel, c: &Command) -> (r: Option<String>)
    requires
        kernel.wf(),
    ensures
        match r {
            Some(text) => report_text(kernel@, c@) == Some(text@),
            None => report_text(kernel@, c@) is None,
        },
{
    match c {
        Command::Help => Some(help_reply()),
        Command::About => Some(
            owned(
                "spikeling-os -- Spikeling's spiking-network runtime as the kernel's own control logic\n",
            ),
        ),
        Command::Tasks => {
            let live = kernel.tasks.live_tasks();
            Some(tasks_reply(&live))
        },
        Command::Mouse => {
            let m = kernel.mouse.state();
            Some(mouse_reply(&m))
        },
        Command::Lspci => {
            let devices = kernel.pci.devices();
            Some(lspci_reply(&devices))
        },
        Command::Nic => Some(nic_reply(kernel.pci.find_nic())),
        Command::Beep(None) => Some(owned("usage: beep FREQ_HZ\n")),
        Command::Unknown(line) => Some(labelled("unknown command: ", line.as_str())),
        _ => None,
    }
}

fn outside_action(c: &Command) -> (r: Option<Action>)
    ensures
        match r {
            Some(a) => outside_work(c@) == Some(a@),
            None => outside_work(c@) is None,
        },
{
    match c {
        Command::Spawn => Some(Action::Spawn),
        Command::Neurons => Some(Action::Neurons),
        Command::Train => Some(Action::Train),
        Command::Save => Some(Action::Save),
        Command::Net => Some(Action::Net),
        Command::Network(line) => Some(Action::Network(owned(line.as_str()))),
        Command::Date => Some(Action::Date),
        Command::SpeakerStatus => Some(Action::SpeakerStatus),
        Command::Silence => Some(Action::Silence),
        Command::Beep(Some(freq)) => Some(Action::Beep(*freq)),
        Command::NicInfo => Some(Action::NicInfo),
        Command::SendPacket => Some(Action::SendPacket),
        Command::RecvPacket => Some(Action::RecvPacket),
        _ => None,
    }
}

fn run_draw(kernel: &mut Kernel)
    requires
        old(kernel).wf(),
    ensures
        final(kernel).wf(),
        final(kernel)@ == draw_result(old(kernel)@),
{
    kernel.mouse.enter_draw_mode();
    say(
        kernel,
        "drawing mode ON -- hold left mouse button and move to draw, right-click (or 'stopdraw') to exit\n",
    );
}

fn run_stopdraw(kernel: &mut Kernel)
    requires
        old(kernel).wf(),
    ensures
        final(kernel).wf(),
        final(kernel)@ == stopdraw_result(old(kernel)@),
{
    if kernel.mouse.drawing_active() {
        kernel.mouse.exit_draw_mode();
        say(kernel, "drawing mode OFF\n");
    } else {
        say(kernel, "not currently in drawing mode\n");
    }
}

fn run_clear(kernel: &mut Kernel)
    requires
        old(kernel).wf(),
    ensures
        final(kernel).wf(),
        final(kernel)@ == clear_result(old(kernel)@),
{
    console::clear_screen(&mut kernel.screen);
}

#[verifier::rlimit(50)]
fn run_change(kernel: &mut Kernel, disk: &SectorCache, c: &Command) -> (r: Action)
    requires
        old(kernel).wf(),
    ensures
        final(kernel).wf(),
        (final(kernel)@, r@) == change_result(old(kernel)@, disk@, c@),
{
    match c {
        Command::Usertest => run_usertest(kernel),
        Command::RunProc(id) => run_process(kernel, *id),
        Command::Kill(id) => {
            run_kill(kernel, *id);
            Action::Done
        },
        Command::Draw => {
            run_draw(kernel);
            Action::Done
        },
        Command::StopDraw => {
            run_stopdraw(kernel);
            Action::Done
        },
        Command::Clear => {
            run_clear(kernel);
            Action::Done
        },
        Command::Pixel(_) | Command::Line(_) | Command::FillRect(_) | Command::Rect(_) => {
            run_drawing_command(kernel, c);
            Action::Done
        },
        _ => run_file_command(kernel, disk, c),
    }
}

/// Runs a line as a command. `disk` holds the sectors that were read so far; where
/// another one is needed, nothing has changed yet.
pub fn run_command(kernel: &mut Kernel, disk: &SectorCache, cmd: &str) -> (r: Action)
    requires
        old(kernel).wf(),
    ensures
        final(kernel).wf(),
        (final(kernel)@, r@) == command_result(old(kernel)@, disk@, command_of(cmd@)),
{
    let c = parse_command(cmd);
    match report(kernel, &c) {
        Some(text) => {
            say(kernel, text.as_str());
            Action::Done
        },
        None => match outside_action(&c) {
            Some(a) => a,
            None => run_change(kernel, disk, &c),
        },
    }
}

/// The trials of the `train` command: five with the key before the motor, then five
/// with the motor before the key, two ticks apart.
pub fn training_session() -> (r: Vec<Trial>)
    ensures
        r@ == Seq::new(
            10,
            |i: int|
                Trial { from: Neuron::LeftKey, to: Neuron::Motor, gap_ticks: 2, ltp: i < 5 },
        ),
{
    let mut out: Vec<Trial> = Vec::new();
    let mut i: usize = 0;
    while i < 10
        invariant
            i <= 10,
            out@ == Seq::new(
                i as nat,
                |j: int|
                    Trial { from: Neuron::LeftKey, to: Neuron::Motor, gap_ticks: 2, ltp: j < 5 },
            ),
        decreases 10 - i,
    {
        out.push(run_training_trial(i < 5, 2));
        i += 1;
    }
    out
}

} // verus!
