//! A PS/2 mouse: bringing it up, decoding its packets, and drawing with it.

use crate::console;
use crate::console::{
    dimensions, line_drawn, on_screen, pixel_set, screen_ok, screen_view, text_written, Console,
    ConsoleView,
};
use vstd::prelude::*;

verus! {

/// One access to the PS/2 controller.
#[derive(Clone, Copy)]
pub enum Ps2Op {
    /// Write to the command port.
    Command(u8),
    /// Write to the data port.
    Data(u8),
    /// Read the data port.
    Read,
}

/// Whether the controller can take another byte, by its status.
pub fn write_ready(status: u8) -> (r: bool)
    ensures
        r == (status & 2 == 0),
        r == (status / 2 % 2 == 0),
{
    assert((status & 2 == 0) == (status / 2 % 2 == 0)) by (bit_vector);
    status & 2 == 0
}

/// Whether the controller has a byte, by its status.
pub fn read_ready(status: u8) -> (r: bool)
    ensures
        r == (status & 1 != 0),
        r == (status % 2 == 1),
{
    assert((status & 1 != 0) == (status % 2 == 1)) by (bit_vector);
    status & 1 != 0
}

/// The controller configuration with the mouse's interrupt enabled and its clock
/// running.
pub open spec fn mouse_config(config: u8) -> u8 {
    (config | 0x02) & !0x20u8
}

/// The accesses that bring the mouse up: those up to the configuration byte, or,
/// once that was read, the remaining ones.
pub open spec fn init_ops(config: Option<u8>) -> Seq<Ps2Op> {
    match config {
        None => seq![Ps2Op::Command(0xA8), Ps2Op::Command(0x20), Ps2Op::Read],
        Some(c) => seq![
            Ps2Op::Command(0x60),
            Ps2Op::Data(mouse_config(c)),
            Ps2Op::Command(0xD4),
            Ps2Op::Data(0xF6),
            Ps2Op::Read,
            Ps2Op::Command(0xD4),
            Ps2Op::Data(0xF4),
            Ps2Op::Read,
        ],
    }
}

/// The accesses that bring the mouse up. Those that do not depend on the
/// controller's configuration byte end with reading it.
pub fn init(config: Option<u8>) -> (r: Vec<Ps2Op>)
    ensures
        r@ == init_ops(config),
{
    let r: Vec<Ps2Op> = match config {
        None => vec![Ps2Op::Command(0xA8), Ps2Op::Command(0x20), Ps2Op::Read],
        Some(c) => vec![
            Ps2Op::Command(0x60),
            Ps2Op::Data((c | 0x02) & !0x20u8),
            Ps2Op::Command(0xD4),
            Ps2Op::Data(0xF6),
            Ps2Op::Read,
            Ps2Op::Command(0xD4),
            Ps2Op::Data(0xF4),
            Ps2Op::Read,
        ],
    };
    assert(r@ == init_ops(config));
    r
}

/// Bringing the mouse up enables its interrupt, starts its clock, and leaves the
/// rest of the controller's configuration alone.
pub proof fn law_config_changes_the_mouse_alone(config: u8)
    ensures
        mouse_config(config) & 0x02 == 0x02,
        mouse_config(config) & 0x20 == 0,
        mouse_config(config) & 0xDD == config & 0xDD,
{
    assert(((config | 0x02) & !0x20u8) & 0x02 == 0x02) by (bit_vector);
    assert(((config | 0x02) & !0x20u8) & 0x20 == 0) by (bit_vector);
    assert(((config | 0x02) & !0x20u8) & 0xDD == config & 0xDD) by (bit_vector);
}

/// Where the mouse is and which buttons are held.
#[derive(Clone, Copy)]
pub struct MouseState {
    pub x: i32,
    pub y: i32,
    pub left: bool,
    pub right: bool,
    pub middle: bool,
    pub packet_count: u32,
}

/// The mouse: its state, the packet that is coming in, and drawing.
pub struct Mouse {
    pub state: MouseState,
    pub packet0: u8,
    pub packet1: u8,
    /// Bytes of the packet that have come in.
    pub packet_index: u8,
    pub drawing_enabled: bool,
    /// The end of the line that is being drawn.
    pub draw_last: Option<(usize, usize)>,
    pub prev_right: bool,
}

/// The movement that a packet reports: nine bits, the sign in the status byte.
pub open spec fn movement(byte: u8, negative: bool) -> int {
    if negative {
        byte - 256
    } else {
        byte as int
    }
}

/// A 32-bit sum, wrapped around.
pub open spec fn wrapped(v: int) -> i32 {
    if v > i32::MAX {
        (v - 0x1_0000_0000) as i32
    } else if v < i32::MIN {
        (v + 0x1_0000_0000) as i32
    } else {
        v as i32
    }
}

/// The mouse's state after a packet. The vertical axis of the mouse points up, that
/// of the screen down.
pub open spec fn moved(s: MouseState, status: u8, dx: u8, dy: u8) -> MouseState {
    MouseState {
        x: wrapped(s.x + movement(dx, status & 0x10 != 0)),
        y: wrapped(s.y - movement(dy, status & 0x20 != 0)),
        left: status & 0x01 != 0,
        right: status & 0x02 != 0,
        middle: status & 0x04 != 0,
        packet_count: s.packet_count.wrapping_add(1),
    }
}

pub open spec fn clamped(v: int, size: int) -> int {
    if v < 0 {
        0
    } else if v > size - 1 {
        size - 1
    } else {
        v
    }
}

/// What drawing makes of the mouse's state and of the screen.
pub open spec fn drawn(m: Mouse, screen: Option<ConsoleView>) -> (Mouse, Option<ConsoleView>) {
    let next = Mouse { prev_right: m.state.right, ..m };
    if !m.drawing_enabled {
        (m, screen)
    } else if m.state.right && !m.prev_right {
        (
            Mouse { drawing_enabled: false, draw_last: None, ..next },
            on_screen(
                screen,
                |v: ConsoleView|
                    text_written(text_written(v, "\nexited drawing mode (right-click)\n"@), "> "@),
            ),
        )
    } else {
        match screen {
            None => (next, screen),
            Some(v) => {
                let cx = clamped(m.state.x as int, v.info.width as int);
                let cy = clamped(m.state.y as int, v.info.height as int);
                if !m.state.left {
                    (Mouse { draw_last: None, ..next }, screen)
                } else {
                    let fb = match m.draw_last {
                        Some((lx, ly)) => line_drawn(v.fb, v.info, lx as int, ly as int, cx, cy),
                        None => pixel_set(v.fb, v.info, cx, cy, 255),
                    };
                    (
                        Mouse { draw_last: Some((cx as usize, cy as usize)), ..next },
                        Some(ConsoleView { fb, ..v }),
                    )
                }
            },
        }
    }
}

/// What a byte from the mouse comes to. A byte that cannot begin a packet is
/// dropped.
pub open spec fn received(m: Mouse, byte: u8, screen: Option<ConsoleView>) -> (
    Mouse,
    Option<ConsoleView>,
) {
    if m.packet_index == 0 {
        if byte & 0x08 == 0 {
            (m, screen)
        } else {
            (Mouse { packet0: byte, packet_index: 1, ..m }, screen)
        }
    } else if m.packet_index == 1 {
        (Mouse { packet1: byte, packet_index: 2, ..m }, screen)
    } else {
        drawn(
            Mouse { state: moved(m.state, m.packet0, m.packet1, byte), packet_index: 0, ..m },
            screen,
        )
    }
}

/// Whether the screen has pixels to draw on, as many as coordinates reach.
pub open spec fn drawable(screen: Option<ConsoleView>) -> bool {
    screen matches Some(v) ==> 1 <= v.info.width <= i32::MAX && 1 <= v.info.height <= i32::MAX
}

fn wrapping_sum(a: i32, b: i32) -> (r: i32)
    ensures
        r == wrapped(a + b),
{
    let sum: i64 = a as i64 + b as i64;
    if sum > i32::MAX as i64 {
        (sum - 0x1_0000_0000) as i32
    } else if sum < i32::MIN as i64 {
        (sum + 0x1_0000_0000) as i32
    } else {
        sum as i32
    }
}

fn clamp(v: i32, size: usize) -> (r: usize)
    requires
        1 <= size <= i32::MAX,
    ensures
        r == clamped(v as int, size as int),
{
    if v < 0 {
        0
    } else if v as i64 > size as i64 - 1 {
        size - 1
    } else {
        v as usize
    }
}

impl Mouse {
    pub open spec fn wf(self) -> bool {
        self.packet_index <= 2
    }

    /// A mouse that has not reported anything.
    pub fn new() -> (r: Mouse)
        ensures
            r.wf(),
            r == (Mouse {
                state: MouseState {
                    x: 0,
                    y: 0,
                    left: false,
                    right: false,
                    middle: false,
                    packet_count: 0,
                },
                packet0: 0,
                packet1: 0,
                packet_index: 0,
                drawing_enabled: false,
                draw_last: None,
                prev_right: false,
            }),
    {
        Mouse {
            state: MouseState {
                x: 0,
                y: 0,
                left: false,
                right: false,
                middle: false,
                packet_count: 0,
            },
            packet0: 0,
            packet1: 0,
            packet_index: 0,
            drawing_enabled: false,
            draw_last: None,
            prev_right: false,
        }
    }

    /// Takes in a byte from the mouse. A complete packet moves the mouse, and draws
    /// where drawing is on.
    pub fn on_interrupt(&mut self, byte: u8, screen: &mut Option<Console>)
        requires
            old(self).wf(),
            screen_ok(*old(screen)),
            old(self).drawing_enabled ==> drawable(screen_view(*old(screen))),
        ensures
            final(self).wf(),
            screen_ok(*final(screen)),
            (*final(self), screen_view(*final(screen))) == received(
                *old(self),
                byte,
                screen_view(*old(screen)),
            ),
    {
        if self.packet_index == 0 {
            if byte & 0x08 == 0 {
                return;
            }
            self.packet0 = byte;
            self.packet_index = 1;
        } else if self.packet_index == 1 {
            self.packet1 = byte;
            self.packet_index = 2;
        } else {
            self.packet_index = 0;
            let status: u8 = self.packet0;
            let dx_raw: i32 = self.packet1 as i32;
            let dy_raw: i32 = byte as i32;
            let dx: i32 = if status & 0x10 != 0 {
                dx_raw - 256
            } else {
                dx_raw
            };
            let dy: i32 = if status & 0x20 != 0 {
                dy_raw - 256
            } else {
                dy_raw
            };
            self.state = MouseState {
                x: wrapping_sum(self.state.x, dx),
                y: wrapping_sum(self.state.y, -dy),
                left: status & 0x01 != 0,
                right: status & 0x02 != 0,
                middle: status & 0x04 != 0,
                packet_count: self.state.packet_count.wrapping_add(1),
            };
            self.handle_draw_mode(screen);
        }
    }

    /// Where the mouse is and which buttons are held.
    pub fn state(&self) -> (r: MouseState)
        ensures
            r == self.state,
    {
        self.state
    }

    /// From now on moving with the left button held draws.
    pub fn enter_draw_mode(&mut self)
        requires
            old(self).wf(),
        ensures
            final(self).wf(),
            *final(self) == (Mouse {
                drawing_enabled: true,
                draw_last: None,
                prev_right: false,
                ..*old(self)
            }),
    {
        self.drawing_enabled = true;
        self.draw_last = None;
        self.prev_right = false;
    }

    /// Moving no longer draws.
    pub fn exit_draw_mode(&mut self)
        requires
            old(self).wf(),
        ensures
            final(self).wf(),
            *final(self) == (Mouse { drawing_enabled: false, draw_last: None, ..*old(self) }),
    {
        self.drawing_enabled = false;
        self.draw_last = None;
    }

    /// Whether moving draws.
    pub fn drawing_active(&self) -> (r: bool)
        ensures
            r == self.drawing_enabled,
    {
        self.drawing_enabled
    }

    /// Draws for a packet that has come in. A right click ends drawing. The first
    /// packet with the left button held gives a dot, the following ones give lines.
    fn handle_draw_mode(&mut self, screen: &mut Option<Console>)
        requires
            old(self).wf(),
            screen_ok(*old(screen)),
            old(self).drawing_enabled ==> drawable(screen_view(*old(screen))),
        ensures
            final(self).wf(),
            screen_ok(*final(screen)),
            (*final(self), screen_view(*final(screen))) == drawn(
                *old(self),
                screen_view(*old(screen)),
            ),
    {
        if !self.drawing_enabled {
            return;
        }
        let right_edge = self.state.right && !self.prev_right;
        self.prev_right = self.state.right;
        if right_edge {
            self.exit_draw_mode();
            console::write_str(screen, "\nexited drawing mode (right-click)\n");
            console::write_str(screen, "> ");
            return;
        }
        let (sw, sh) = match dimensions(screen) {
            Some(size) => size,
            None => return,
        };
        let cx: usize = clamp(self.state.x, sw);
        let cy: usize = clamp(self.state.y, sh);
        if self.state.left {
            match self.draw_last {
                Some((lx, ly)) => console::draw_line(screen, lx, ly, cx, cy),
                None => console::draw_pixel(screen, cx, cy, true),
            }
            self.draw_last = Some((cx, cy));
        } else {
            self.draw_last = None;
        }
    }
}

/// Three bytes, the first one with its marker bit, make one packet from any state
/// between packets.
pub proof fn law_three_bytes_make_a_packet(
    m: Mouse,
    status: u8,
    dx: u8,
    dy: u8,
    screen: Option<ConsoleView>,
)
    requires
        m.packet_index == 0,
        status & 0x08 != 0,
    ensures
        ({
            let (m1, s1) = received(m, status, screen);
            let (m2, s2) = received(m1, dx, s1);
            let (m3, s3) = received(m2, dy, s2);
            &&& m3.state == moved(m.state, status, dx, dy)
            &&& m3.packet_index == 0
            &&& !m.drawing_enabled ==> s3 == screen
        }),
{
}

/// A byte that cannot begin a packet changes nothing between packets, so that a
/// stream which lost a byte falls into step again.
pub proof fn law_stray_byte_is_dropped(m: Mouse, byte: u8, screen: Option<ConsoleView>)
    requires
        m.packet_index == 0,
        byte & 0x08 == 0,
    ensures
        received(m, byte, screen) == (m, screen),
{
}

/// Where drawing goes on, its position stays on the screen.
pub proof fn law_drawing_stays_on_screen(m: Mouse, v: ConsoleView)
    requires
        drawable(Some(v)),
        m.drawing_enabled,
        m.draw_last matches Some((x, y)) ==> x < v.info.width && y < v.info.height,
    ensures
        drawn(m, Some(v)).0.draw_last matches Some((x, y)) ==> x < v.info.width && y
            < v.info.height,
{
}

/// Drawing ends with a packet that has the right button down where the one before
/// had not, and with no other.
pub proof fn law_right_click_ends_drawing(m: Mouse, screen: Option<ConsoleView>)
    requires
        m.drawing_enabled,
        drawable(screen),
    ensures
        drawn(m, screen).0.drawing_enabled <==> !(m.state.right && !m.prev_right),
        drawn(m, screen).0.prev_right == m.state.right,
{
}

/// The mouse and the screen after the three bytes of a packet.
pub open spec fn packet_received(
    m: Mouse,
    status: u8,
    dx: u8,
    dy: u8,
    screen: Option<ConsoleView>,
) -> (Mouse, Option<ConsoleView>) {
    let (m1, s1) = received(m, status, screen);
    let (m2, s2) = received(m1, dx, s1);
    received(m2, dy, s2)
}

/// A packet moves the pointer by its second byte to the right and by its third byte up,
/// each with the sign that the status byte gives it, and tells which buttons are held. A
/// coordinate that leaves its range comes in again at the other end.
pub proof fn law_packet_moves_the_pointer(
    m: Mouse,
    status: u8,
    dx: u8,
    dy: u8,
    screen: Option<ConsoleView>,
)
    requires
        m.packet_index == 0,
        status & 0x08 != 0,
    ensures
        ({
            let s = packet_received(m, status, dx, dy, screen).0.state;
            let to_left = status & 0x10 != 0;
            let down = status & 0x20 != 0;
            &&& s.left == (status & 0x01 != 0)
            &&& s.right == (status & 0x02 != 0)
            &&& s.middle == (status & 0x04 != 0)
            &&& m.state.packet_count < u32::MAX ==> s.packet_count == m.state.packet_count + 1
            &&& (s.x - m.state.x - (if to_left {
                dx - 256
            } else {
                dx as int
            })) % 0x1_0000_0000 == 0
            &&& (m.state.y - s.y - (if down {
                dy - 256
            } else {
                dy as int
            })) % 0x1_0000_0000 == 0
            &&& -0x4000_0000 <= m.state.x <= 0x4000_0000 ==> s.x - m.state.x == (if to_left {
                dx - 256
            } else {
                dx as int
            })
            &&& -0x4000_0000 <= m.state.y <= 0x4000_0000 ==> m.state.y - s.y == (if down {
                dy - 256
            } else {
                dy as int
            })
        }),
{
}

/// The pixel of the screen that is nearest to the pointer.
pub open spec fn is_nearest(x: int, size: int, c: int) -> bool {
    0 <= c < size && forall|o: int|
        0 <= o < size ==> crate::console::abs(c - x) <= #[trigger] crate::console::abs(o - x)
}

/// While the left button is held, the pointer draws: a pixel where the button went
/// down, then a line to each place that a packet moves it to. Without the button
/// nothing is drawn, and the next stroke starts afresh.
pub proof fn law_held_button_draws(
    m: Mouse,
    status: u8,
    dx: u8,
    dy: u8,
    v: ConsoleView,
)
    requires
        m.packet_index == 0,
        m.drawing_enabled,
        m.prev_right || status & 0x02 == 0,
        status & 0x08 != 0,
        drawable(Some(v)),
    ensures
        ({
            let (m2, s2) = packet_received(m, status, dx, dy, Some(v));
            &&& m2.drawing_enabled
            &&& if status & 0x01 == 0 {
                m2.draw_last is None && s2 == Some(v)
            } else {
                m2.draw_last matches Some((cx, cy)) && {
                    &&& is_nearest(m2.state.x as int, v.info.width as int, cx as int)
                    &&& is_nearest(m2.state.y as int, v.info.height as int, cy as int)
                    &&& s2 == Some(
                        ConsoleView {
                            fb: match m.draw_last {
                                Some((lx, ly)) => line_drawn(
                                    v.fb,
                                    v.info,
                                    lx as int,
                                    ly as int,
                                    cx as int,
                                    cy as int,
                                ),
                                None => pixel_set(v.fb, v.info, cx as int, cy as int, 255),
                            },
                            ..v
                        },
                    )
                }
            }
        }),
{
}

/// Until the drawing mode is on, the mouse leaves the screen alone, and no packet turns
/// the mode on.
pub proof fn law_mouse_draws_in_drawing_mode_alone(
    m: Mouse,
    byte: u8,
    screen: Option<ConsoleView>,
)
    requires
        m.wf(),
        !m.drawing_enabled,
    ensures
        received(m, byte, screen).1 == screen,
        !received(m, byte, screen).0.drawing_enabled,
        received(m, byte, screen).0.wf(),
{
}

/// Whether operations from `at` on send a byte to the mouse and take its answer.
pub open spec fn tells_mouse(ops: Seq<Ps2Op>, at: int, byte: u8) -> bool {
    ops[at] == Ps2Op::Command(0xD4) && ops[at + 1] == Ps2Op::Data(byte) && ops[at + 2]
        == Ps2Op::Read
}

/// The mouse is brought up in two parts: its port is enabled and the controller's
/// configuration read; then the configuration is written back with the mouse's interrupt
/// on, and the mouse is told to take its defaults and, after that, to report.
pub proof fn law_mouse_is_brought_up_in_order(config: u8)
    ensures
        init_ops(None) == seq![Ps2Op::Command(0xA8), Ps2Op::Command(0x20), Ps2Op::Read],
        ({
            let ops = init_ops(Some(config));
            &&& ops.len() == 8
            &&& ops[0] == Ps2Op::Command(0x60)
            &&& ops[1] matches Ps2Op::Data(b) && b & 0x02 == 0x02 && b & 0x20 == 0 && b & 0xDD
                == config & 0xDD
            &&& tells_mouse(ops, 2, 0xF6)
            &&& tells_mouse(ops, 5, 0xF4)
        }),
{
    law_config_changes_the_mouse_alone(config);
}

} // verus!
