//! What typed commands do.

use crate::command::{command_of, CommandView};
use crate::command_laws::{
    four_texts, law_drawing_commands_take_their_numbers, law_file_commands_take_their_name,
    law_numbered_commands_take_their_number, law_write_command_takes_name_and_text, two_texts,
};
use crate::console::{info_ok, pixel_set, ConsoleView};
use crate::disk::{apply_writes, DiskView};
use crate::drawing_laws::{
    law_line_lights_its_points, law_rectangle_lights_its_area, lights, line_region, rect_region,
};
use crate::fs::{delete_plan, file_contents, listing, make_dir_plan, write_plan};
use crate::fs_laws::{law_deleted_file_is_gone, well_formed};
use crate::numbers::decimal_text;
use crate::process::run_result;
use crate::replies::listing_text;
use crate::shell::{
    command_result, drawing_result, file_result, list_result, mkdir_result, read_result,
    remove_result, said, write_result, ActionView, KernelView,
};
use crate::shell_laws::law_written_text_is_printed;
use crate::step::Step;
use crate::tasks::{is_alive, law_kill_ends_one_task, tasks_ok};
use crate::text::is_space;
use crate::usertest::entry_state;
use vstd::prelude::*;
use vstd::utf8::encode_utf8;

verus! {

/// The kernel with another picture on its screen.
pub open spec fn with_picture(k: KernelView, v: ConsoleView, fb: Seq<u8>) -> KernelView {
    KernelView { screen: Some(ConsoleView { fb, ..v }), ..k }
}

/// Whether a command has drawn a region, printed something and done nothing else.
pub open spec fn draws(
    k: KernelView,
    v: ConsoleView,
    after: (KernelView, ActionView),
    region: spec_fn(int, int) -> bool,
) -> bool {
    after.1 == ActionView::Done && exists|fb: Seq<u8>, text: Seq<char>| #[trigger]
        lights(v.fb, fb, v.info, region) && after.0 == #[trigger] said(with_picture(k, v, fb), text)
}

/// A typed drawing command lights the pixels that its numbers name: those of a line
/// from one point to another, or of a rectangle of a width and a height, or of its
/// border.
pub proof fn law_drawing_commands_draw(
    k: KernelView,
    v: ConsoleView,
    d: DiskView,
    a: usize,
    b: usize,
    m: usize,
    n: usize,
)
    requires
        k.screen == Some(v),
        info_ok(v.info),
    ensures
        draws(
            k,
            v,
            command_result(k, d, command_of("line "@ + four_texts(a, b, m, n))),
            line_region(a as int, b as int, m as int, n as int),
        ),
        draws(
            k,
            v,
            command_result(k, d, command_of("rect "@ + four_texts(a, b, m, n))),
            rect_region(a as int, b as int, m as int, n as int, false),
        ),
        draws(
            k,
            v,
            command_result(k, d, command_of("fillrect "@ + four_texts(a, b, m, n))),
            rect_region(a as int, b as int, m as int, n as int, true),
        ),
        ({
            let after = command_result(k, d, command_of("pixel "@ + two_texts(a, b)));
            after.1 == ActionView::Done && exists|text: Seq<char>|
                after.0 == #[trigger] said(
                    with_picture(k, v, pixel_set(v.fb, v.info, a as int, b as int, 255)),
                    text,
                )
        }),
{
    let (x, y, w, h) = (a as int, b as int, m as int, n as int);
    law_drawing_commands_take_their_numbers(a, b, m, n);
    law_line_lights_its_points(v.fb, v.info, x, y, w, h);
    law_rectangle_lights_its_area(v.fb, v.info, x, y, w, h, false);
    law_rectangle_lights_its_area(v.fb, v.info, x, y, w, h, true);
    let line = "line drawn from "@ + crate::replies::point_text(a, b) + " to "@
        + crate::replies::point_text(m, n) + "\n"@;
    let rect = "rect drawn at "@ + crate::replies::point_text(a, b) + crate::replies::size_text(
        m,
        n,
    );
    let filled = "filled rect drawn at "@ + crate::replies::point_text(a, b)
        + crate::replies::size_text(m, n);
    let pixel = "pixel set at "@ + crate::replies::point_text(a, b) + "\n"@;
    let line_fb = crate::console::line_drawn(v.fb, v.info, x, y, w, h);
    let rect_fb = crate::console::rect_drawn(v.fb, v.info, x, y, w, h, false);
    let filled_fb = crate::console::rect_drawn(v.fb, v.info, x, y, w, h, true);
    let pixel_fb = pixel_set(v.fb, v.info, x, y, 255);
    assert(command_result(k, d, CommandView::Line(Some((a, b, m, n)))).0 == said(
        with_picture(k, v, line_fb),
        line,
    ));
    assert(command_result(k, d, CommandView::Rect(Some((a, b, m, n)))).0 == said(
        with_picture(k, v, rect_fb),
        rect,
    ));
    assert(command_result(k, d, CommandView::FillRect(Some((a, b, m, n)))).0 == said(
        with_picture(k, v, filled_fb),
        filled,
    ));
    assert(command_result(k, d, CommandView::Pixel(Some((a, b)))).0 == said(
        with_picture(k, v, pixel_fb),
        pixel,
    ));
}

/// Whether a kernel has become another one by its screen alone.
pub open spec fn differs_on_screen(k: KernelView, after: KernelView) -> bool {
    &&& after == (KernelView { screen: after.screen, ..k })
    &&& k.screen is None <==> after.screen is None
}

proof fn lemma_file_commands_print(k: KernelView, d: DiskView, c: CommandView)
    ensures
        differs_on_screen(k, file_result(k, d, c).0),
{
    match c {
        CommandView::List(dir) => {
            reveal(list_result);
        },
        CommandView::Write(Some((name, text))) => {
            reveal(write_result);
        },
        CommandView::Read(name) => {
            reveal(read_result);
        },
        CommandView::Remove(name) => {
            reveal(remove_result);
        },
        CommandView::MakeDir(name) => {
            reveal(mkdir_result);
        },
        _ => {},
    }
}

proof fn lemma_drawing_commands_print(k: KernelView, c: CommandView)
    ensures
        differs_on_screen(k, drawing_result(k, c)),
{
}

/// No command touches what is not its own: the mouse follows the drawing mode alone,
/// the tasks change by `kill`, the processes by `runproc`, the test program by
/// `usertest`, and the list of devices by none. Nothing puts a screen where none is.
pub proof fn law_commands_keep_to_their_own(k: KernelView, d: DiskView, c: CommandView)
    ensures
        ({
            let after = command_result(k, d, c).0;
            &&& !(c is Draw || c is StopDraw) ==> after.mouse == k.mouse
            &&& !(c is Kill) ==> after.tasks == k.tasks
            &&& !(c is RunProc) ==> after.processes == k.processes
            &&& !(c is Usertest) ==> after.usertest == k.usertest
            &&& after.pci == k.pci
            &&& after.user_cs == k.user_cs
            &&& after.user_ss == k.user_ss
            &&& k.screen is None <==> after.screen is None
        }),
{
    lemma_file_commands_print(k, d, c);
    lemma_drawing_commands_print(k, c);
    match c {
        CommandView::Usertest => {},
        CommandView::RunProc(_) => {},
        CommandView::Kill(_) => {},
        CommandView::Draw => {},
        CommandView::StopDraw => {},
        CommandView::Clear => {},
        _ => {
            assert(differs_on_screen(k, command_result(k, d, c).0));
        },
    }
}

/// What a typed `write` stores, a typed `read` prints.
pub proof fn law_typed_write_can_be_read(
    k: KernelView,
    d: DiskView,
    name: Seq<char>,
    text: Seq<char>,
)
    requires
        well_formed(d),
        !name.contains(' '),
        name.len() > 0 ==> !is_space(name[0]) && !is_space(name.last()),
        write_plan(d, name, encode_utf8(text)) matches Step::Done(Ok(_)),
    ensures
        command_result(k, d, command_of("write "@ + (name + " "@ + text))).1 matches ActionView::Store {
            writes,
            ..
        } && command_result(k, apply_writes(d, writes), command_of("read "@ + name)) == (
            said(k, text + "\n"@),
            ActionView::Done,
        ),
{
    law_write_command_takes_name_and_text(name, text);
    let none = Seq::<char>::empty();
    law_file_commands_take_their_name(none, name, none);
    assert(none + name + none == name);
    reveal(write_result);
    law_written_text_is_printed(k, d, name, text);
}

/// A typed `rm` removes its file, and says so once the drive has the change; a file that
/// is not there is not removed.
pub proof fn law_typed_remove_removes(k: KernelView, d: DiskView, name: Seq<char>)
    requires
        well_formed(d),
        name.len() > 0 ==> !is_space(name[0]) && !is_space(name.last()),
    ensures
        ({
            let after = command_result(k, d, command_of("rm "@ + name));
            match file_contents(d, name) {
                Step::Done(Ok(_)) => after.0 == k && (after.1 matches ActionView::Store {
                    writes,
                    done,
                    failed,
                } && done == "removed '"@ + name + "'\n"@ && failed == "rm FAILED: "@
                    && (file_contents(apply_writes(d, writes), name) matches Step::Done(Err(_)))),
                _ => true,
            }
        }),
{
    let none = Seq::<char>::empty();
    law_file_commands_take_their_name(none, name, none);
    assert(none + name + none == name);
    reveal(remove_result);
    if let Step::Done(Ok(_)) = file_contents(d, name) {
        let w = delete_plan(d, name)->Done_0->Ok_0;
        law_deleted_file_is_gone(d, name, w);
    }
}

/// A typed `ls` prints the directory that it names, and a typed `mkdir` stores what
/// creating the directory takes.
pub proof fn law_typed_directory_commands(
    k: KernelView,
    d: DiskView,
    name: Seq<char>,
    lines: Seq<(Seq<char>, bool, u16)>,
    w: Seq<crate::disk::WriteView>,
)
    requires
        name.len() > 0 ==> !is_space(name[0]) && !is_space(name.last()),
    ensures
        listing(d, Some(name)) == Step::<u32, Result<Seq<(Seq<char>, bool, u16)>, Seq<char>>>::Done(
            Ok(lines),
        ) ==> command_result(k, d, command_of("ls "@ + name)) == (
            said(k, listing_text(Ok(lines))),
            ActionView::Done,
        ),
        make_dir_plan(d, name) == crate::fs::PlanView::Done(Ok(w)) ==> command_result(
            k,
            d,
            command_of("mkdir "@ + name),
        ) == (
            k,
            ActionView::Store {
                writes: w,
                done: "created directory '"@ + name + "'\n"@,
                failed: "mkdir FAILED: "@,
            },
        ),
{
    let none = Seq::<char>::empty();
    law_file_commands_take_their_name(none, name, none);
    assert(none + name + none == name);
    reveal(list_result);
    reveal(mkdir_result);
}

/// A typed `kill` ends the task that it names, where it is alive, and no other.
pub proof fn law_typed_kill_ends_the_task(k: KernelView, d: DiskView, id: usize, j: int)
    requires
        tasks_ok(k.tasks),
        0 <= j < k.tasks.tasks.len(),
    ensures
        ({
            let after = command_result(k, d, command_of("kill "@ + decimal_text(id as nat)));
            &&& after.1 == ActionView::Done
            &&& !is_alive(after.0.tasks, id as int)
            &&& j != id ==> is_alive(after.0.tasks, j) == is_alive(k.tasks, j)
            &&& after.0.screen == said(
                k,
                if is_alive(k.tasks, id as int) {
                    "killed task"@ + decimal_text(id as nat) + "\n"@
                } else {
                    "kill FAILED -- task"@ + decimal_text(id as nat)
                        + " not found or already dead\n"@
                },
            ).screen
        }),
{
    law_numbered_commands_take_their_number(0, id, 0);
    law_kill_ends_one_task(k.tasks, id, j);
}

/// A typed `runproc` runs the process that it names where it can be run, and a typed
/// `beep` sounds at the frequency that it names.
pub proof fn law_typed_numbers_reach_their_work(k: KernelView, d: DiskView, f: u32, id: u8)
    ensures
        command_result(k, d, command_of("beep "@ + decimal_text(f as nat))) == (
            k,
            ActionView::Beep(f),
        ),
        match run_result(k.processes, id) {
            Ok((processes, switch)) => command_result(
                k,
                d,
                command_of("runproc "@ + decimal_text(id as nat)),
            ) == (
                KernelView { processes, ..k },
                ActionView::RunProcess { id, switch },
            ),
            Err(e) => command_result(k, d, command_of("runproc "@ + decimal_text(id as nat))) == (
                said(k, "runproc FAILED: "@ + e + "\n"@),
                ActionView::Done,
            ),
        },
{
    law_numbered_commands_take_their_number(f, 0, id);
}

/// `draw` turns the drawing mode on for a stroke that starts afresh, and `stopdraw` turns
/// it off; where the pointer is and what is held stays as it was.
pub proof fn law_drawing_mode_follows_its_commands(k: KernelView, d: DiskView)
    ensures
        ({
            let on = command_result(k, d, CommandView::Draw).0.mouse;
            let off = command_result(k, d, CommandView::StopDraw).0.mouse;
            &&& on.drawing_enabled
            &&& on.draw_last is None
            &&& !on.prev_right
            &&& on.state == k.mouse.state
            &&& on.packet_index == k.mouse.packet_index
            &&& !off.drawing_enabled
            &&& off.state == k.mouse.state
            &&& off.packet_index == k.mouse.packet_index
            &&& k.mouse.drawing_enabled ==> off.draw_last is None
        }),
{
}

/// `clear` leaves every byte of the picture dark and goes back to the top left corner.
pub proof fn law_clear_leaves_a_dark_screen(k: KernelView, v: ConsoleView, d: DiskView, b: int)
    requires
        k.screen == Some(v),
        0 <= b < v.fb.len(),
    ensures
        command_result(k, d, CommandView::Clear).0.screen matches Some(after) && after.fb.len()
            == v.fb.len() && after.fb[b] == 0 && after.x == 4 && after.y == 4 && after.info == v.info,
        command_result(k, d, CommandView::Clear).1 == ActionView::Done,
{
}

/// `usertest` enters user code once its pages are there, counting the run, and does not
/// before.
pub proof fn law_usertest_waits_for_its_pages(k: KernelView, d: DiskView)
    ensures
        ({
            let after = command_result(k, d, CommandView::Usertest);
            &&& k.usertest.mapped ==> after.1 == ActionView::EnterRing3(
                entry_state(k.user_cs, k.user_ss),
            ) && after.0.usertest.run_count == k.usertest.run_count.wrapping_add(1)
                && after.0.screen == k.screen
            &&& !k.usertest.mapped ==> after.1 == ActionView::Done && after.0.usertest
                == k.usertest
            &&& after.0.usertest.mapped == k.usertest.mapped
        }),
{
}

} // verus!
