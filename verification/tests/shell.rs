use spikeling_os::command::{parse_command, Command};
use spikeling_os::console;
use spikeling_os::console::{Console, FrameBufferInfo, PixelFormat};
use spikeling_os::disk::SectorCache;
use spikeling_os::keyboard::{on_decoded, KeyboardInput};
use spikeling_os::mouse::Mouse;
use spikeling_os::neurons::Neuron;
use spikeling_os::pci::{PciBus, PciDevice};
use spikeling_os::process::ProcessTable;
use spikeling_os::replies::{
    beep_reply, date_reply, nic_info_reply, recv_reply, runproc_reply, save_reply, send_reply,
    silence_reply, spawn_reply, speaker_status_reply, store_reply, train_reply, usertest_reply, DateTime, Frame,
    NicStatus,
};
use spikeling_os::shell::{
    end_command, init, run_command, show_prompt, training_session, Action, Kernel, Shell,
};
use spikeling_os::tasks::{Task, TaskTable, STACK_SIZE};
use spikeling_os::usertest::UserTest;
use std::collections::HashMap;

fn screen() -> Option<Console> {
    let mut s = None;
    let info = FrameBufferInfo {
        width: 3000,
        height: 400,
        pixel_format: PixelFormat::U8,
        bytes_per_pixel: 1,
        stride: 3000,
    };
    console::init(&mut s, vec![0; 3000 * 400], info);
    s
}

fn kernel() -> Kernel {
    Kernel {
        screen: screen(),
        mouse: Mouse::new(),
        tasks: TaskTable::new(),
        pci: PciBus::new(),
        processes: ProcessTable::new(),
        usertest: UserTest::new(),
        user_cs: 0x23,
        user_ss: 0x1B,
    }
}

/// Whether the screen shows exactly this text.
fn shows(k: &Kernel, text: &str) -> bool {
    let mut s = screen();
    console::write_str(&mut s, text);
    let (a, b) = (k.screen.as_ref().unwrap(), s.as_ref().unwrap());
    a.framebuffer == b.framebuffer && (a.x_pos, a.y_pos) == (b.x_pos, b.y_pos)
}

struct Drive {
    sectors: HashMap<u32, [u8; 512]>,
}

impl Drive {
    /// Runs a command to its end; gives back what is left to be done.
    fn run(&mut self, k: &mut Kernel, line: &str) -> Action {
        let mut c = SectorCache::new();
        loop {
            match run_command(k, &c, line) {
                Action::Need(lba) => {
                    c.learn(lba, Some(*self.sectors.get(&lba).unwrap_or(&[0u8; 512])))
                }
                Action::Store { writes, done, .. } => {
                    for w in writes {
                        self.sectors.insert(w.lba, w.data);
                    }
                    console::write_str(&mut k.screen, &done);
                    return Action::Done;
                }
                a => return a,
            }
        }
    }
}

fn drive() -> Drive {
    Drive { sectors: HashMap::new() }
}

/// What one command prints on a fresh kernel.
fn printed(line: &str, text: &str) -> bool {
    let mut k = kernel();
    let a = drive().run(&mut k, line);
    matches!(a, Action::Done) && shows(&k, text)
}

#[test]
fn lines_are_parsed() {
    assert!(matches!(parse_command(""), Command::Empty));
    assert!(matches!(parse_command("train"), Command::Train));
    assert!(matches!(parse_command("train A B 2"), Command::Network(s) if s == "train A B 2"));
    assert!(matches!(parse_command("stim A 5"), Command::Network(_)));
    assert!(matches!(parse_command("beep  440 "), Command::Beep(Some(440))));
    assert!(matches!(parse_command("beep x"), Command::Beep(None)));
    assert!(matches!(parse_command("beep"), Command::Unknown(s) if s == "beep"));
    assert!(matches!(parse_command("write a b c"), Command::Write(Some((n, t))) if n == "a" && t == "b c"));
    assert!(matches!(parse_command("write a"), Command::Write(None)));
    assert!(matches!(parse_command("ls"), Command::List(None)));
    assert!(matches!(parse_command("ls  docs"), Command::List(Some(d)) if d == "docs"));
    assert!(matches!(parse_command("kill 18446744073709551616"), Command::Kill(None)));
    assert!(matches!(parse_command("runproc 256"), Command::RunProc(None)));
    assert!(matches!(parse_command("runproc 255"), Command::RunProc(Some(255))));
    assert!(matches!(parse_command("pixel 1 2"), Command::Pixel(Some((1, 2)))));
    assert!(matches!(parse_command("pixel 1 2 3"), Command::Pixel(None)));
    assert!(matches!(parse_command("line 1 2 3 4"), Command::Line(Some((1, 2, 3, 4)))));
    assert!(matches!(parse_command("rect 1 2 3"), Command::Rect(None)));
    assert!(matches!(parse_command("fillrect 1 2 3 +4"), Command::FillRect(Some((1, 2, 3, 4)))));
    assert!(matches!(parse_command("Help"), Command::Unknown(_)));
}

#[test]
fn characters_make_up_a_line() {
    let mut sh = Shell::new();
    let mut s = screen();
    for c in " heyx".chars() {
        assert!(sh.on_char(&mut s, c).is_none());
    }
    assert!(sh.on_char(&mut s, '\u{8}').is_none());
    assert!(sh.on_char(&mut s, '\u{1b}').is_none());
    assert!(sh.on_char(&mut s, ' ').is_none());
    assert_eq!(sh.line, vec![' ', 'h', 'e', 'y', ' ']);
    assert_eq!(sh.on_char(&mut s, '\n'), Some("hey".to_string()));
    assert!(sh.line.is_empty());
    assert!(sh.on_char(&mut s, '\u{7f}').is_none());
    assert_eq!(sh.on_char(&mut s, '\r'), Some(String::new()));
    let mut t = screen();
    console::write_str(&mut t, " hey \n\n");
    assert_eq!(s.unwrap().framebuffer, t.unwrap().framebuffer);
}

#[test]
fn a_line_is_run_as_it_was_edited() {
    let mut sh = Shell::new();
    let mut s = screen();
    for c in "\u{8}lx\u{7f}s\t \u{1b}docc\u{8}z\u{8}s ".chars() {
        assert!(sh.on_char(&mut s, c).is_none());
    }
    assert_eq!(sh.on_char(&mut s, '\r'), Some("ls docs".to_string()));
    assert!(sh.line.is_empty());
    let mut t = screen();
    console::write_str(&mut t, "ls docs \n");
    assert_eq!(s.unwrap().framebuffer, t.unwrap().framebuffer);
}

#[test]
fn the_prompt_is_shown() {
    let mut k = kernel();
    init(&mut k.screen);
    show_prompt(&mut k.screen);
    assert!(shows(&k, "> > "));
}

#[test]
fn the_prompt_follows_the_reply() {
    let mut k = kernel();
    end_command(&mut k.screen, "weights saved to disk\n");
    assert!(shows(&k, "weights saved to disk\n> "));
    end_command(&mut k.screen, "");
    assert!(shows(&k, "weights saved to disk\n> > "));
    let mut k = kernel();
    assert!(matches!(drive().run(&mut k, "tasks"), Action::Done));
    end_command(&mut k.screen, "");
    assert!(shows(&k, "(no live tasks)\n> "));
    let mut none = None;
    end_command(&mut none, "x");
    assert!(none.is_none());
}

#[test]
fn a_storing_command_says_how_it_went() {
    assert_eq!(store_reply(Ok(()), "wrote 'f'\n", "write FAILED: "), "wrote 'f'\n");
    assert_eq!(
        store_reply(Err("drive error"), "wrote 'f'\n", "write FAILED: "),
        "write FAILED: drive error\n"
    );
}

#[test]
fn commands_that_only_print() {
    assert!(printed("", ""));
    assert!(printed("help", "commands: help, about, tasks, spawn, kill, neurons, train, save, net, addneuron, addsynapse, stim, beep, silence, date, mouse, ls, mkdir, write, read, rm, clear, lspci, nic, nicinfo, sendpacket, recvpacket, pixel, line, rect, fillrect, draw, stopdraw, usertest, runproc\n"));
    assert!(printed("about", "spikeling-os -- Spikeling's spiking-network runtime as the kernel's own control logic\n"));
    assert!(printed("tasks", "(no live tasks)\n"));
    assert!(printed("mouse", "x=0 y=0 left=false right=false middle=false packets=0\n"));
    assert!(printed("lspci", "(no PCI devices found)\n"));
    assert!(printed("nic", "no network controller found on PCI bus 0\n"));
    assert!(printed("foo bar", "unknown command: foo bar\n"));
    assert!(printed("beep low", "usage: beep FREQ_HZ\n"));
    assert!(printed("write x", "usage: write NAME TEXT...\n"));
    assert!(printed("kill me", "usage: kill ID\n"));
    assert!(printed("runproc x", "usage: runproc ID (1 or 2)\n"));
    assert!(printed("runproc 9", "runproc FAILED: no such process -- use 1, 2, or 4 (FDTEST_PROCESS_ID)\n"));
    assert!(printed("kill 5", "kill FAILED -- task5 not found or already dead\n"));
    assert!(printed("stopdraw", "not currently in drawing mode\n"));
    assert!(printed("usertest", "usertest FAILED: user test pages not mapped (setup() should have run at boot)\n"));
    assert!(printed("pixel 1", "usage: pixel X Y\n"));
    assert!(printed("line 1", "usage: line X0 Y0 X1 Y1\n"));
    assert!(printed("rect 1", "usage: rect X Y W H\n"));
    assert!(printed("fillrect 1", "usage: fillrect X Y W H\n"));
}

#[test]
fn devices_are_listed() {
    let mut k = kernel();
    k.pci.found.push(PciDevice {
        bus: 0,
        device: 3,
        function: 0,
        vendor_id: 0x8086,
        device_id: 0x100E,
        class_code: 2,
        subclass: 0,
    });
    drive().run(&mut k, "lspci");
    drive().run(&mut k, "nic");
    assert!(shows(
        &k,
        "00:03.0 8086:100e class 0200\nnetwork controller found -- vendor=8086 device=100e\n"
    ));
}

#[test]
fn files_are_handled() {
    let mut k = kernel();
    let mut d = drive();
    d.run(&mut k, "ls");
    d.run(&mut k, "mkdir docs");
    d.run(&mut k, "write notes hello there");
    d.run(&mut k, "write docs/x \u{e9}");
    d.run(&mut k, "ls");
    d.run(&mut k, "ls docs");
    d.run(&mut k, "read notes");
    d.run(&mut k, "rm notes");
    d.run(&mut k, "read notes");
    d.run(&mut k, "rm docs");
    d.run(&mut k, "mkdir docs");
    d.run(&mut k, "write a/b/c x");
    d.run(&mut k, "ls nowhere");
    assert!(shows(
        &k,
        "(empty)\ncreated directory 'docs'\nwrote 11 bytes to 'notes'\nwrote 2 bytes to 'docs/x'\ndocs/\nnotes            11 bytes\nx                2 bytes\nhello there\nremoved 'notes'\nread FAILED: no such file 'notes'\nrm FAILED: 'docs' is a directory -- rm does not remove directories (no rmdir yet)\nmkdir FAILED: 'docs' already exists\nwrite FAILED: 'a/b/c' -- only one level of subdirectory nesting is supported (DIR/NAME, not DIR/SUB/NAME)\nls FAILED: no such directory 'nowhere'\n"
    ));
}

#[test]
fn a_file_that_is_not_text_is_printed_with_replacements() {
    let mut k = kernel();
    let mut d = drive();
    d.run(&mut k, "write f ab");
    let mut data = d.sectors[&2];
    data[1] = 0xFF;
    d.sectors.insert(2, data);
    d.run(&mut k, "clear");
    d.run(&mut k, "read f");
    assert!(shows(&k, "a\u{fffd}\n"));
}

#[test]
fn storing_waits_for_the_drive() {
    let mut k = kernel();
    let mut c = SectorCache::new();
    assert!(matches!(run_command(&mut k, &c, "write f abc"), Action::Need(1)));
    c.learn(1, None);
    match run_command(&mut k, &c, "write f abc") {
        Action::Store { writes, done, failed } => {
            assert_eq!(writes.len(), 2);
            assert_eq!(done, "wrote 3 bytes to 'f'\n");
            assert_eq!(failed, "write FAILED: ");
        }
        _ => panic!("the file is to be stored"),
    }
    assert!(shows(&k, ""));
}

#[test]
fn drawing_commands_draw() {
    let mut k = kernel();
    let mut d = drive();
    d.run(&mut k, "pixel 100 200");
    d.run(&mut k, "line 10 300 12 300");
    d.run(&mut k, "rect 50 300 3 3");
    d.run(&mut k, "fillrect 60 300 2 2");
    let mut s = screen();
    console::write_str(&mut s, "pixel set at (100,200)\nline drawn from (10,300) to (12,300)\nrect drawn at (50,300) 3x3\nfilled rect drawn at (60,300) 2x2\n");
    console::draw_pixel(&mut s, 100, 200, true);
    console::draw_line(&mut s, 10, 300, 12, 300);
    console::draw_rect(&mut s, 50, 300, 3, 3, false);
    console::draw_rect(&mut s, 60, 300, 2, 2, true);
    assert!(k.screen.unwrap().framebuffer == s.unwrap().framebuffer);
}

#[test]
fn drawing_mode_is_entered_and_left() {
    let mut k = kernel();
    let mut d = drive();
    d.run(&mut k, "draw");
    assert!(k.mouse.drawing_active());
    d.run(&mut k, "stopdraw");
    assert!(!k.mouse.drawing_active());
    assert!(shows(&k, "drawing mode ON -- hold left mouse button and move to draw, right-click (or 'stopdraw') to exit\ndrawing mode OFF\n"));
    d.run(&mut k, "clear");
    assert!(shows(&k, ""));
}

#[test]
fn tasks_are_reported_and_killed() {
    let mut k = kernel();
    let mut d = drive();
    let task = |e: u64| Task::new(e, vec![0; STACK_SIZE], 0x10_0000 * e);
    k.tasks.run_preemption_demo(task(1), task(2), task(3));
    k.tasks.count_up(1);
    d.run(&mut k, "tasks");
    d.run(&mut k, "kill 1");
    d.run(&mut k, "tasks");
    assert!(shows(
        &k,
        "live task fire counts: task0=0 task1=1 task2=0 \nkilled task1\nlive task fire counts: task0=0 task2=0 \n"
    ));
}

#[test]
fn ring_three_is_entered() {
    let mut k = kernel();
    let mut d = drive();
    k.usertest.setup_done(None).unwrap();
    match d.run(&mut k, "usertest") {
        Action::EnterRing3(e) => assert_eq!((e.cs, e.ss), (0x23, 0x1B)),
        _ => panic!("ring 3 is to be entered"),
    }
    assert_eq!(k.usertest.run_count, 1);
    assert!(shows(&k, ""));
}

#[test]
fn outside_work_is_asked_for() {
    let mut k = kernel();
    let mut d = drive();
    assert!(matches!(d.run(&mut k, "spawn"), Action::Spawn));
    assert!(matches!(d.run(&mut k, "neurons"), Action::Neurons));
    assert!(matches!(d.run(&mut k, "train"), Action::Train));
    assert!(matches!(d.run(&mut k, "save"), Action::Save));
    assert!(matches!(d.run(&mut k, "net"), Action::Net));
    assert!(matches!(d.run(&mut k, "addneuron X"), Action::Network(s) if s == "addneuron X"));
    assert!(matches!(d.run(&mut k, "date"), Action::Date));
    assert!(matches!(d.run(&mut k, "speakerstatus"), Action::SpeakerStatus));
    assert!(matches!(d.run(&mut k, "silence"), Action::Silence));
    assert!(matches!(d.run(&mut k, "beep 880"), Action::Beep(880)));
    assert!(matches!(d.run(&mut k, "nicinfo"), Action::NicInfo));
    assert!(matches!(d.run(&mut k, "sendpacket"), Action::SendPacket));
    assert!(matches!(d.run(&mut k, "recvpacket"), Action::RecvPacket));
    assert!(shows(&k, ""));
}

#[test]
fn training_has_ten_trials() {
    let s = training_session();
    let ltp: Vec<bool> = s.iter().map(|t| t.ltp).collect();
    assert_eq!(ltp, vec![true, true, true, true, true, false, false, false, false, false]);
    assert!(s.iter().all(|t| t.gap_ticks == 2 && matches!(t.from, Neuron::LeftKey)));
}

#[test]
fn replies_to_outside_work() {
    assert_eq!(spawn_reply(Some(4)), "spawned task4\n");
    assert_eq!(spawn_reply(None), "spawn FAILED -- scheduler not running yet or task capacity reached\n");
    assert_eq!(
        train_reply("0.5000", "0.6000", "0.4000"),
        "LeftKey->Motor weight: 0.5000 -> (5x LTP) -> 0.6000 -> (5x LTD) -> 0.4000\n"
    );
    assert_eq!(save_reply(Ok(())), "weights saved to disk\n");
    assert_eq!(save_reply(Err("no drive")), "save FAILED: no drive\n");
    let t = DateTime { year: 2024, month: 3, day: 7, hour: 9, minute: 5, second: 30 };
    assert_eq!(date_reply(t), "2024-03-07 09:05:30 (real CMOS RTC, not the PIT tick count)\n");
    assert_eq!(speaker_status_reply(true), "speaker gate register enabled=true\n");
    assert_eq!(silence_reply(false), "silenced -- speaker gate register enabled=false\n");
    assert_eq!(
        beep_reply(440, true),
        "beeping at 440Hz -- speaker gate register enabled=true (use 'silence' to stop)\n"
    );
    assert!(usertest_reply().starts_with("usertest: entered ring 3"));
    assert!(runproc_reply(2).starts_with("runproc 2: entered ring 3 under its own private page table"));
    assert_eq!(nic_info_reply(&None), "no e1000 NIC initialized (see boot log for why)\n");
    let nic = |valid, link_up| Some(NicStatus { mac: "52:54:00:12:34:56".to_string(), valid, link_up });
    assert_eq!(
        nic_info_reply(&nic(Some(true), Some(false))),
        "e1000 NIC -- MAC 52:54:00:12:34:56 (address-valid bit: true), link: down\n"
    );
    assert_eq!(
        nic_info_reply(&nic(None, None)),
        "e1000 NIC -- MAC 52:54:00:12:34:56 (address-valid bit: false), link: unknown\n"
    );
    assert!(send_reply(Ok(true)).starts_with("packet transmitted"));
    assert!(send_reply(Ok(false)).starts_with("packet queued"));
    assert_eq!(send_reply(Err("no NIC")), "sendpacket FAILED: no NIC\n");
    let f = Frame {
        src: "a".to_string(),
        dest: "b".to_string(),
        ethertype: 0x88B5,
        length: 64,
        payload_matches_test: true,
    };
    assert_eq!(
        recv_reply(&Ok(Some(f))),
        "packet received -- src a dst b ethertype 0x88b5 length 64 bytes, payload matches test packet: true\n"
    );
    assert_eq!(recv_reply(&Ok(None)), "no packet received within timeout\n");
    assert_eq!(recv_reply(&Err("no NIC".to_string())), "recvpacket FAILED: no NIC\n");
}

#[test]
fn keys_are_decoded_and_handed_on() {
    let mut kb = KeyboardInput::new();
    let mut sh = Shell::new();
    let mut s = screen();
    // a, released; shift held: d; shift released; enter
    let r = kb.on_interrupt(&mut sh, &mut s, 0x1E);
    assert!(matches!(r.stimulus, Some((Neuron::LeftKey, _))));
    assert!(r.command.is_none());
    assert!(kb.on_interrupt(&mut sh, &mut s, 0x9E).stimulus.is_none());
    assert!(kb.on_interrupt(&mut sh, &mut s, 0x2A).stimulus.is_none());
    assert!(kb.on_interrupt(&mut sh, &mut s, 0x20).stimulus.is_none());
    kb.on_interrupt(&mut sh, &mut s, 0xAA);
    assert!(matches!(kb.on_interrupt(&mut sh, &mut s, 0x20).stimulus, Some((Neuron::RightKey, _))));
    assert_eq!(kb.typed, "aDd");
    assert_eq!(sh.line, vec!['a', 'D', 'd']);
    // an extended code types nothing
    kb.on_interrupt(&mut sh, &mut s, 0xE0);
    kb.on_interrupt(&mut sh, &mut s, 0x48);
    assert_eq!(kb.typed, "aDd");
    kb.on_interrupt(&mut sh, &mut s, 0x0E);
    assert_eq!(sh.line, vec!['a', 'D']);
    assert_eq!(kb.on_interrupt(&mut sh, &mut s, 0x1C).command, Some("aD".to_string()));
    assert_eq!(kb.typed, "aDd\u{8}\n");
}

#[test]
fn nothing_decoded_changes_nothing() {
    let mut typed = String::from("x");
    let mut sh = Shell::new();
    let mut s = None;
    let r = on_decoded(&mut typed, &mut sh, &mut s, None);
    assert!(r.stimulus.is_none() && r.command.is_none());
    assert_eq!(typed, "x");
    let r = on_decoded(&mut typed, &mut sh, &mut s, Some('d'));
    assert!(matches!(r.stimulus, Some((Neuron::RightKey, _))));
    assert_eq!(typed, "xd");
    assert_eq!(sh.line, vec!['d']);
}
