use vstd::prelude::*;

use crate::assets::AssetManifest;
use crate::config::AppConfig;
use crate::gesture::{GestureEvent, GestureTracker};
use crate::pet::{trunc_div, BrainState, Bounds, PetBrain, PetSnapshot, DRAG_HOLD_MS, KNOCKDOWN_DURATION_MS, STROKE_DURATION_MS};
use crate::text::{
    chars_of, decimal_int, find, find_chars, find_from, is_whitespace, lemma_decimal_chars, lemma_find_first, lemma_find_found,
    lemma_find_none, lemma_parse_decimal, occurs_at, parse_i32, parse_i32_spec, str_eq, trim, trim_end, trim_start, trim_range,
};

verus! {

/// Transparent border around the pet on its overlay surface, in pixels.
pub const SURFACE_PADDING: i32 = 18;
/// A drag moves the pet only once the pointer has travelled this far on one axis.
pub const DRAG_THRESHOLD_PX: i32 = 4;
/// Monitor size assumed until the compositor reports one.
pub const DEFAULT_MONITOR_WIDTH: i32 = 1920;
pub const DEFAULT_MONITOR_HEIGHT: i32 = 1080;

/// What the command line asks for.
#[derive(Debug, PartialEq, Eq)]
pub enum Command {
    Desktop,
    Console,
    Help,
    Unknown(String),
}

/// The command named by the first argument: none or "desktop" for the desktop
/// companion, "console" for the terminal one, "--help" or "-h" for usage.
pub fn parse_command(first: Option<&str>) -> (command: Command)
    ensures
        match first {
            None => command == Command::Desktop,
            Some(arg) => if arg@ == "desktop"@ {
                command == Command::Desktop
            } else if arg@ == "console"@ {
                command == Command::Console
            } else if arg@ == "--help"@ || arg@ == "-h"@ {
                command == Command::Help
            } else {
                command matches Command::Unknown(name) && name@ == arg@
            },
        },
{
    match first {
        None => Command::Desktop,
        Some(arg) => {
            if str_eq(arg, "desktop") {
                Command::Desktop
            } else if str_eq(arg, "console") {
                Command::Console
            } else if str_eq(arg, "--help") || str_eq(arg, "-h") {
                Command::Help
            } else {
                Command::Unknown(String::from_str(arg))
            }
        },
    }
}

/// The low 16 bits of a message parameter.
pub fn low_word(value: u32) -> (w: u16)
    ensures
        w == value % 0x1_0000,
{
    let w = (value & 0xffff) as u16;
    assert(value & 0xffff == value % 0x1_0000) by (bit_vector);
    w
}

/// The high 16 bits of a message parameter.
pub fn high_word(value: u32) -> (w: u16)
    ensures
        w == value / 0x1_0000,
{
    let w = ((value >> 16) & 0xffff) as u16;
    assert((value >> 16) & 0xffff == value / 0x1_0000) by (bit_vector);
    w
}

/// Copies the UTF-16 units of a tooltip into a fixed buffer, as far as both go.
pub fn write_tip(dst: &mut [u16], units: &[u16])
    ensures
        final(dst)@.len() == old(dst)@.len(),
        forall|i: int|
            0 <= i < old(dst)@.len() ==> #[trigger] final(dst)@[i] == if i < units@.len() {
                units@[i]
            } else {
                old(dst)@[i]
            },
{
    let n = if dst.len() < units.len() { dst.len() } else { units.len() };
    for i in 0..n
        invariant
            n <= dst@.len(),
            n <= units@.len(),
            dst@.len() == old(dst)@.len(),
            forall|j: int|
                0 <= j < old(dst)@.len() ==> #[trigger] dst@[j] == if j < i {
                    units@[j]
                } else {
                    old(dst)@[j]
                },
    {
        dst[i] = units[i];
    }
}

/// Side of the square overlay surface for a pet drawn at `scale`: the pet, padding on
/// both sides, and room for hearts.
pub open spec fn surface_size_spec(frame_size: u32, scale: u32) -> int {
    frame_size * scale + SURFACE_PADDING * 2 + 24
}

pub fn surface_size(frame_size: u32, scale: u32) -> (size: i32)
    requires
        surface_size_spec(frame_size, scale) <= i32::MAX,
    ensures
        size == surface_size_spec(frame_size, scale),
{
    assert(frame_size * scale <= i32::MAX);
    let pet_size = (frame_size * scale) as i32;
    pet_size + SURFACE_PADDING * 2 + 24
}

/// The pet's side in pixels at a scale.
pub fn pet_size(frame_size: u32, scale: u32) -> (size: i32)
    requires
        frame_size * scale <= i32::MAX,
    ensures
        size == frame_size * scale,
{
    (frame_size * scale) as i32
}

/// Where the desktop pet starts: where it was saved, unless that is the untouched default
/// place; otherwise near the lower left corner of a default-sized monitor.
pub open spec fn start_position_spec(saved: Option<(i32, i32)>, pet_size: i32) -> (i32, i32) {
    match saved {
        Some(p) => if p != (32i32, 32i32) {
            p
        } else {
            default_position_spec(pet_size)
        },
        None => default_position_spec(pet_size),
    }
}

pub open spec fn default_position_spec(pet_size: i32) -> (i32, i32) {
    let y = DEFAULT_MONITOR_HEIGHT - pet_size - 72;
    (48, if y > 24 { y as i32 } else { 24 })
}

pub fn start_position(saved: Option<(i32, i32)>, pet_size: i32) -> (p: (i32, i32))
    requires
        DEFAULT_MONITOR_HEIGHT - pet_size <= i32::MAX,
    ensures
        p == start_position_spec(saved, pet_size),
{
    let y = DEFAULT_MONITOR_HEIGHT - pet_size - 72;
    let fallback = (48, if y > 24 { y } else { 24 });
    match saved {
        Some(p) => if p.0 != 32 || p.1 != 32 {
            p
        } else {
            fallback
        },
        None => fallback,
    }
}

/// Layer-shell margins (top, right, bottom, left) that put the surface at the pet.
pub fn margins_for(snapshot: PetSnapshot) -> (m: (i32, i32, i32, i32))
    ensures
        m == ((if snapshot.y > 0 { snapshot.y } else { 0i32 }), 0i32, 0i32, (if snapshot.x > 0 { snapshot.x } else { 0i32 })),
{
    (if snapshot.y > 0 { snapshot.y } else { 0 }, 0, 0, if snapshot.x > 0 { snapshot.x } else { 0 })
}

proof fn lemma_trunc_div_bounds(a: int, s: int)
    requires
        s >= 1,
        i32::MIN <= a <= i32::MAX,
    ensures
        i32::MIN <= trunc_div(a, s) <= i32::MAX,
        a >= 0 ==> trunc_div(a, s) == a / s,
        a < 0 ==> trunc_div(a, s) == -((-a) / s),
{
    if a >= 0 {
        assert(0 <= a / s <= a) by (nonlinear_arith)
            requires a >= 0, s >= 1;
    } else {
        assert(0 <= (-a) / s <= -a) by (nonlinear_arith)
            requires -a > 0, s >= 1;
    }
}

/// A surface point in sprite pixels: the padding removed and the scale undone.
pub open spec fn local_point_spec(x: i32, y: i32, scale: u32) -> (int, int) {
    (trunc_div(x - SURFACE_PADDING, scale as int), trunc_div(y - SURFACE_PADDING, scale as int))
}

pub fn local_point(x: i32, y: i32, scale: u32) -> (p: (i32, i32))
    requires
        1 <= scale <= i32::MAX,
        x >= i32::MIN + SURFACE_PADDING,
        y >= i32::MIN + SURFACE_PADDING,
    ensures
        p.0 == local_point_spec(x, y, scale).0,
        p.1 == local_point_spec(x, y, scale).1,
{
    let s = scale as i64;
    let dx = x as i64 - SURFACE_PADDING as i64;
    let dy = y as i64 - SURFACE_PADDING as i64;
    let lx = if dx >= 0 { dx / s } else { -((-dx) / s) };
    let ly = if dy >= 0 { dy / s } else { -((-dy) / s) };
    proof {
        lemma_trunc_div_bounds(dx as int, s as int);
        lemma_trunc_div_bounds(dy as int, s as int);
    }
    (lx as i32, ly as i32)
}

/// A drag in progress: where the pointer went down on the surface, and whether it has
/// travelled far enough to count as a move.
#[derive(Clone, Copy, Debug, PartialEq, Eq, Structural)]
pub struct DragState {
    pub offset_x: i32,
    pub offset_y: i32,
    pub moved: bool,
}

/// The pointer over the pet's surface: where it last was and any drag in progress.
#[derive(Clone, Copy, Debug)]
pub struct PointerState {
    pub last: (i32, i32),
    pub drag: Option<DragState>,
}

pub open spec fn abs_int(v: int) -> int {
    if v < 0 { -v } else { v }
}

impl PointerState {
    pub fn new() -> (p: Self)
        ensures
            p == (PointerState { last: (0, 0), drag: None }),
    {
        PointerState { last: (0, 0), drag: None }
    }

    /// Records the pointer position, in surface pixels.
    pub fn hover(&mut self, x: i32, y: i32)
        ensures
            *final(self) == (PointerState { last: (x, y), ..*old(self) }),
    {
        self.last = (x, y);
    }

    /// The button went down: a press on the body grabs the pet and starts a drag.
    pub fn press(&mut self, brain: &mut PetBrain, manifest: &AssetManifest, scale: u32, now_ms: u64)
        requires
            old(brain).inv(),
            1 <= scale <= i32::MAX,
            old(self).last.0 >= i32::MIN + SURFACE_PADDING,
            old(self).last.1 >= i32::MIN + SURFACE_PADDING,
            ({
                let (lx, ly) = local_point_spec(old(self).last.0, old(self).last.1, scale);
                manifest@.body_zone_at(lx, ly) ==> now_ms + DRAG_HOLD_MS <= u64::MAX
            }),
        ensures
            final(brain).inv(),
            ({
                let (lx, ly) = local_point_spec(old(self).last.0, old(self).last.1, scale);
                if manifest@.body_zone_at(lx, ly) {
                    &&& final(brain)@ == old(brain)@.drag_begun(now_ms)
                    &&& *final(self) == (PointerState {
                        drag: Some(DragState { offset_x: old(self).last.0, offset_y: old(self).last.1, moved: false }),
                        ..*old(self)
                    })
                } else {
                    &&& final(brain)@ == old(brain)@
                    &&& *final(self) == *old(self)
                }
            }),
    {
        let (x, y) = self.last;
        let (lx, ly) = local_point(x, y, scale);
        if manifest.is_body_zone(lx, ly) {
            brain.begin_drag(now_ms);
            self.drag = Some(DragState { offset_x: x, offset_y: y, moved: false });
        }
    }

    /// The pointer moved during a drag: the pet follows it, clamped to the bounds. Gives
    /// whether a drag is in progress.
    pub fn drag_to(&mut self, brain: &mut PetBrain, x: i32, y: i32, bounds: Bounds) -> (dragging: bool)
        requires
            old(brain).inv(),
            bounds.wf(),
            old(self).drag matches Some(d) ==> {
                let s = old(brain)@.snapshot;
                &&& i32::MIN <= s.x + x <= i32::MAX
                &&& i32::MIN <= s.y + y <= i32::MAX
                &&& i32::MIN <= s.x + x - d.offset_x <= i32::MAX
                &&& i32::MIN <= s.y + y - d.offset_y <= i32::MAX
                &&& i32::MIN < x - d.offset_x <= i32::MAX
                &&& i32::MIN < y - d.offset_y <= i32::MAX
            },
        ensures
            final(brain).inv(),
            dragging == old(self).drag is Some,
            match old(self).drag {
                None => final(brain)@ == old(brain)@ && *final(self) == *old(self),
                Some(d) => {
                    let s = old(brain)@.snapshot;
                    let tx = s.x + x - d.offset_x;
                    let ty = s.y + y - d.offset_y;
                    &&& final(brain)@ == old(brain)@.with_position(bounds.clamp_x_spec(tx), bounds.clamp_y_spec(ty))
                    &&& *final(self) == (PointerState {
                        drag: Some(DragState {
                            moved: d.moved || abs_int(tx - s.x) >= DRAG_THRESHOLD_PX || abs_int(ty - s.y) >= DRAG_THRESHOLD_PX,
                            ..d
                        }),
                        ..*old(self)
                    })
                },
            },
    {
        match self.drag {
            None => false,
            Some(drag) => {
                let snapshot = brain.snapshot();
                let target_x = (snapshot.x as i64 + x as i64 - drag.offset_x as i64) as i32;
                let target_y = (snapshot.y as i64 + y as i64 - drag.offset_y as i64) as i32;
                let dx = target_x as i64 - snapshot.x as i64;
                let dy = target_y as i64 - snapshot.y as i64;
                let far = (if dx < 0 { -dx } else { dx }) >= DRAG_THRESHOLD_PX as i64
                    || (if dy < 0 { -dy } else { dy }) >= DRAG_THRESHOLD_PX as i64;
                self.drag = Some(DragState { moved: drag.moved || far, ..drag });
                brain.set_position(target_x, target_y, bounds);
                true
            },
        }
    }

    /// The button went up: a drag that moved the pet ends in a knockdown, a still press is
    /// a poke. Without a drag nothing happens.
    pub fn release(&mut self, brain: &mut PetBrain, now_ms: u64)
        requires
            old(brain).inv(),
            old(self).drag is Some ==> now_ms + KNOCKDOWN_DURATION_MS <= u64::MAX,
        ensures
            final(brain).inv(),
            *final(self) == (PointerState { drag: None, ..*old(self) }),
            match old(self).drag {
                None => final(brain)@ == old(brain)@,
                Some(d) => if d.moved {
                    final(brain)@ == old(brain)@.knocked_down(now_ms)
                } else {
                    final(brain)@ == old(brain)@.poked(now_ms).0
                },
            },
    {
        let drag = self.drag;
        self.drag = None;
        match drag {
            None => {},
            Some(d) => {
                if d.moved {
                    brain.knockdown(now_ms);
                } else {
                    brain.poke(now_ms);
                }
            },
        }
    }
}

/// The overlay bounds once the compositor reports the monitor's logical size: at least
/// the pet's size on each axis.
pub fn resized_bounds(bounds: Bounds, width: i32, height: i32) -> (b: Bounds)
    ensures
        b == (Bounds {
            width: if width > bounds.pet_size { width } else { bounds.pet_size },
            height: if height > bounds.pet_size { height } else { bounds.pet_size },
            ..bounds
        }),
{
    Bounds {
        width: if width > bounds.pet_size { width } else { bounds.pet_size },
        height: if height > bounds.pet_size { height } else { bounds.pet_size },
        ..bounds
    }
}

/// The tray icon: a 22 × 22 green disc, four bytes (alpha, red, green, blue) a pixel.
pub open spec fn tray_icon_spec() -> Seq<u8> {
    Seq::new(
        22 * 22 * 4,
        |i: int|
            {
                let p = i / 4;
                let dx = p % 22 - 11;
                let dy = p / 22 - 11;
                if dx * dx + dy * dy <= 92 {
                    if i % 4 == 0 {
                        255u8
                    } else if i % 4 == 1 {
                        92u8
                    } else if i % 4 == 2 {
                        186u8
                    } else {
                        83u8
                    }
                } else {
                    0u8
                }
            },
    )
}

proof fn lemma_icon_index(x: int, y: int, c: int)
    requires
        0 <= x < 22,
        0 <= y < 22,
        0 <= c < 4,
    ensures
        ((y * 22 + x) * 4 + c) / 4 == y * 22 + x,
        ((y * 22 + x) * 4 + c) % 4 == c,
        (y * 22 + x) % 22 == x,
        (y * 22 + x) / 22 == y,
{
    vstd::arithmetic::div_mod::lemma_fundamental_div_mod_converse((y * 22 + x) * 4 + c, 4, y * 22 + x, c);
    vstd::arithmetic::div_mod::lemma_fundamental_div_mod_converse(y * 22 + x, 22, y, x);
}

pub fn tray_icon_argb() -> (data: Vec<u8>)
    ensures
        data@ == tray_icon_spec(),
{
    let mut data: Vec<u8> = Vec::new();
    for y in 0..22usize
        invariant
            data@.len() == y * 22 * 4,
            forall|i: int| 0 <= i < data@.len() ==> #[trigger] data@[i] == tray_icon_spec()[i],
    {
        for x in 0..22usize
            invariant
                y < 22,
                data@.len() == (y * 22 + x) * 4,
                forall|i: int| 0 <= i < data@.len() ==> #[trigger] data@[i] == tray_icon_spec()[i],
        {
            let dx = x as i32 - 11;
            let dy = y as i32 - 11;
            assert(0 <= dx * dx <= 121 && 0 <= dy * dy <= 121) by (nonlinear_arith)
                requires -11 <= dx <= 10, -11 <= dy <= 10;
            let inside = dx * dx + dy * dy <= 92;
            let (a, r, g, b): (u8, u8, u8, u8) = if inside { (255, 92, 186, 83) } else { (0, 0, 0, 0) };
            proof {
                lemma_icon_index(x as int, y as int, 0);
                lemma_icon_index(x as int, y as int, 1);
                lemma_icon_index(x as int, y as int, 2);
                lemma_icon_index(x as int, y as int, 3);
            }
            data.push(a);
            data.push(r);
            data.push(g);
            data.push(b);
        }
    }
    assert(data@ =~= tray_icon_spec());
    data
}

/// What the tray menu asks of the pet.
#[derive(Clone, Copy, Debug, PartialEq, Eq, Structural)]
pub enum TrayCommand {
    TogglePause,
    ResetPosition,
    Quit,
}

/// Menu identifiers of the native tray menu.
pub const MENU_PAUSE: u16 = 1001;
pub const MENU_RESET: u16 = 1002;
pub const MENU_QUIT: u16 = 1003;

/// The command a native menu identifier stands for.
pub fn menu_command(id: u16) -> (command: Option<TrayCommand>)
    ensures
        command == if id == MENU_PAUSE {
            Some(TrayCommand::TogglePause)
        } else if id == MENU_RESET {
            Some(TrayCommand::ResetPosition)
        } else if id == MENU_QUIT {
            Some(TrayCommand::Quit)
        } else {
            None::<TrayCommand>
        },
{
    if id == MENU_PAUSE {
        Some(TrayCommand::TogglePause)
    } else if id == MENU_RESET {
        Some(TrayCommand::ResetPosition)
    } else if id == MENU_QUIT {
        Some(TrayCommand::Quit)
    } else {
        None
    }
}

/// Carries out a tray command on the pet; gives whether the program should quit.
pub fn apply_tray_command(brain: &mut PetBrain, command: TrayCommand, bounds: Bounds) -> (quit: bool)
    requires
        old(brain).inv(),
        command == TrayCommand::ResetPosition ==> {
            &&& bounds.wf()
            &&& bounds.left + 24 <= i32::MAX
            &&& bounds.max_y_spec() - 24 >= i32::MIN
        },
    ensures
        final(brain).inv(),
        quit == (command == TrayCommand::Quit),
        final(brain)@ == tray_command_result(old(brain)@, command, bounds),
{
    match command {
        TrayCommand::TogglePause => {
            brain.toggle_paused();
            false
        },
        TrayCommand::ResetPosition => {
            brain.reset_position(bounds);
            false
        },
        TrayCommand::Quit => true,
    }
}

/// Pointer motion over the pet, in surface pixels, feeds the stroke recogniser with the
/// point in sprite pixels at the event time `at_ms`; a recognised stroke strokes the pet at
/// `now_ms`. Gives whether the pet was stroked.
pub fn stroke_on_motion(
    gesture: &mut GestureTracker,
    brain: &mut PetBrain,
    manifest: &AssetManifest,
    x: i32,
    y: i32,
    scale: u32,
    at_ms: u64,
    now_ms: u64,
) -> (stroked: bool)
    requires
        old(brain).inv(),
        1 <= scale <= i32::MAX,
        x >= i32::MIN + SURFACE_PADDING,
        y >= i32::MIN + SURFACE_PADDING,
        ({
            let (lx, ly) = local_point_spec(x, y, scale);
            old(gesture)@.moved(lx as i32, ly as i32, at_ms, manifest@).1 == Some(GestureEvent::Stroked) ==> {
                &&& now_ms + STROKE_DURATION_MS <= u64::MAX
                &&& manifest@.heart_spawn_points.len() > 0
                &&& manifest@.heart_frames.len() > 0
            }
        }),
    ensures
        final(brain).inv(),
        ({
            let (lx, ly) = local_point_spec(x, y, scale);
            let (tracker, event) = old(gesture)@.moved(lx as i32, ly as i32, at_ms, manifest@);
            &&& final(gesture)@ == tracker
            &&& stroked == (event == Some(GestureEvent::Stroked))
            &&& final(brain)@ == if stroked {
                old(brain)@.stroked(now_ms, manifest@).0
            } else {
                old(brain)@
            }
        }),
{
    let (lx, ly) = local_point(x, y, scale);
    let event = gesture.pointer_moved(lx, ly, at_ms, manifest);
    let stroked = match event {
        Some(GestureEvent::Stroked) => true,
        None => false,
    };
    if stroked {
        brain.stroke(now_ms, manifest);
    }
    stroked
}

/// A press on the pet's body, at the last pointer position, pokes it. Gives whether it
/// was on the body.
pub fn poke_if_body(brain: &mut PetBrain, manifest: &AssetManifest, x: i32, y: i32, scale: u32, now_ms: u64) -> (hit: bool)
    requires
        old(brain).inv(),
        1 <= scale <= i32::MAX,
        x >= i32::MIN + SURFACE_PADDING,
        y >= i32::MIN + SURFACE_PADDING,
        ({
            let (lx, ly) = local_point_spec(x, y, scale);
            manifest@.body_zone_at(lx, ly) ==> now_ms + KNOCKDOWN_DURATION_MS <= u64::MAX
        }),
    ensures
        final(brain).inv(),
        ({
            let (lx, ly) = local_point_spec(x, y, scale);
            &&& hit == manifest@.body_zone_at(lx, ly)
            &&& final(brain)@ == if hit { old(brain)@.poked(now_ms).0 } else { old(brain)@ }
        }),
{
    let (lx, ly) = local_point(x, y, scale);
    if manifest.is_body_zone(lx, ly) {
        brain.poke(now_ms);
        true
    } else {
        false
    }
}

/// What the desktop pet saves when it quits: where it is, how it looks and feels, its
/// scale, whether it is paused; no monitor.
pub fn saved_config(snapshot: PetSnapshot, scale: u32) -> (config: AppConfig)
    ensures
        config.monitor is None,
        config.position == Some((snapshot.x, snapshot.y)),
        config.last_pose == snapshot.animation,
        config.mood == snapshot.mood,
        config.scale == scale,
        config.paused == snapshot.paused,
{
    AppConfig {
        monitor: None,
        position: Some((snapshot.x, snapshot.y)),
        last_pose: snapshot.animation,
        mood: snapshot.mood,
        scale,
        paused: snapshot.paused,
    }
}

/// The buffer after `cursor` among `count` shared buffers, round robin.
pub fn next_buffer_index(cursor: usize, count: usize) -> (index: usize)
    requires
        count > 0,
        cursor < usize::MAX,
    ensures
        index == (cursor + 1) % (count as int),
{
    (cursor + 1) % count
}

/// Why shared-memory buffers of a requested size cannot be made.
#[derive(Clone, Copy, Debug, PartialEq, Eq, Structural)]
pub enum BufferSizeError {
    InvalidSize,
    TooLarge,
    InvalidStride,
    StrideTooLarge,
}

impl BufferSizeError {
    /// The error as it is shown.
    pub fn message(&self) -> (m: &'static str)
        ensures
            m@ == match self {
                BufferSizeError::InvalidSize => "invalid Wayland buffer size"@,
                BufferSizeError::TooLarge => "Wayland buffer is too large"@,
                BufferSizeError::InvalidStride => "invalid buffer stride"@,
                BufferSizeError::StrideTooLarge => "Wayland buffer stride is too large"@,
            },
    {
        match self {
            BufferSizeError::InvalidSize => "invalid Wayland buffer size",
            BufferSizeError::TooLarge => "Wayland buffer is too large",
            BufferSizeError::InvalidStride => "invalid buffer stride",
            BufferSizeError::StrideTooLarge => "Wayland buffer stride is too large",
        }
    }
}

/// Byte size and row stride of a `width` × `height` ARGB buffer.
#[derive(Clone, Copy, Debug, PartialEq, Eq, Structural)]
pub struct BufferLayout {
    pub size: u32,
    pub stride: i32,
}

/// The layout of a shared-memory buffer: four bytes a pixel, the size within `u32` and
/// `i32`, the stride within `u32` and `i32`; the first check that fails gives the error.
pub fn buffer_layout(width: u32, height: u32) -> (r: Result<BufferLayout, BufferSizeError>)
    ensures
        r == if width * height * 4 > u32::MAX {
            Err::<BufferLayout, BufferSizeError>(BufferSizeError::InvalidSize)
        } else if width * height * 4 > i32::MAX {
            Err(BufferSizeError::TooLarge)
        } else if width * 4 > u32::MAX {
            Err(BufferSizeError::InvalidStride)
        } else if width * 4 > i32::MAX {
            Err(BufferSizeError::StrideTooLarge)
        } else {
            Ok(BufferLayout { size: (width * height * 4) as u32, stride: (width * 4) as i32 })
        },
{
    let pixels = match width.checked_mul(height) {
        Some(p) => p,
        None => {
            assert(width * height * 4 > u32::MAX) by (nonlinear_arith)
                requires width * height > u32::MAX;
            return Err(BufferSizeError::InvalidSize);
        },
    };
    let size = match pixels.checked_mul(4) {
        Some(n) => n,
        None => return Err(BufferSizeError::InvalidSize),
    };
    if size > i32::MAX as u32 {
        return Err(BufferSizeError::TooLarge);
    }
    let stride = match width.checked_mul(4) {
        Some(n) => n,
        None => return Err(BufferSizeError::InvalidStride),
    };
    if stride > i32::MAX as u32 {
        return Err(BufferSizeError::StrideTooLarge);
    }
    Ok(BufferLayout { size, stride: stride as i32 })
}

/// Where an output description gives the logical size.
pub const LOGICAL_SIZE_MARKER: &'static str = "logical_size: Some((";

/// The logical size in an output's description: the text between the marker and the next
/// `))`, cut at commas; its first two pieces, trimmed, read as `i32`s.
pub open spec fn logical_size_spec(text: Seq<char>) -> Option<(i32, i32)> {
    let marker = LOGICAL_SIZE_MARKER@;
    match find(text, marker) {
        None => None,
        Some(i) => {
            let rest = text.skip(i + marker.len());
            match find(rest, "))"@) {
                None => None,
                Some(j) => {
                    let pair = rest.take(j);
                    match find(pair, ","@) {
                        None => None,
                        Some(k) => {
                            let tail = pair.skip(k + 1);
                            let second = match find(tail, ","@) {
                                None => tail,
                                Some(m) => tail.take(m),
                            };
                            match (parse_i32_spec(trim(pair.take(k))), parse_i32_spec(trim(second))) {
                                (Some(w), Some(h)) => Some((w, h)),
                                _ => None,
                            }
                        },
                    }
                },
            }
        },
    }
}

proof fn lemma_find_shift(text: Seq<char>, pat: Seq<char>, base: int, i: int)
    requires
        0 <= base <= i,
        base <= text.len(),
    ensures
        find_from(text, pat, i) matches Some(k) ==> find_from(text.skip(base), pat, i - base) == Some(k - base),
        find_from(text, pat, i) is None ==> find_from(text.skip(base), pat, i - base) is None,
    decreases text.len() + 1 - i,
{
    let t = text.skip(base);
    if i + pat.len() <= text.len() {
        assert(t.subrange(i - base, i - base + pat.len()) =~= text.subrange(i, i + pat.len()));
        lemma_find_shift(text, pat, base, i + 1);
    }
}

/// Reads the logical size from an output's description; see `logical_size_spec`.
#[verifier::rlimit(40)]
pub fn parse_logical_size(description: &str) -> (size: Option<(i32, i32)>)
    ensures
        size == logical_size_spec(description@),
{
    let text = chars_of(description);
    let marker = chars_of(LOGICAL_SIZE_MARKER);
    let close = chars_of("))");
    let comma = chars_of(",");
    let ghost t = text@;
    let n = text.len();
    assert(t.take(n as int) =~= t);
    proof {
        reveal_strlit(",");
    }
    let i = match find_chars(text.as_slice(), marker.as_slice(), 0, n) {
        None => return None,
        Some(i) => i,
    };
    proof {
        lemma_find_found(t, marker@, 0);
    }
    let start = i + marker.len();
    let ghost rest = t.skip(start as int);
    proof {
        lemma_find_shift(t, close@, start as int, start as int);
        lemma_find_found(t, close@, start as int);
    }
    let j = match find_chars(text.as_slice(), close.as_slice(), start, n) {
        None => return None,
        Some(j) => j,
    };
    let ghost pair = rest.take(j - start);
    let ghost tj = t.take(j as int);
    assert(pair =~= tj.skip(start as int));
    proof {
        lemma_find_shift(tj, comma@, start as int, start as int);
        lemma_find_found(tj, comma@, start as int);
    }
    let k = match find_chars(text.as_slice(), comma.as_slice(), start, j) {
        None => return None,
        Some(k) => k,
    };
    assert(pair.take(k - start) =~= t.subrange(start as int, k as int));
    let ghost tail = pair.skip(k - start + 1);
    assert(tail =~= tj.skip(k + 1));
    proof {
        lemma_find_shift(tj, comma@, (k + 1) as int, (k + 1) as int);
        lemma_find_found(tj, comma@, (k + 1) as int);
    }
    let second_end = match find_chars(text.as_slice(), comma.as_slice(), k + 1, j) {
        None => {
            assert(tail =~= t.subrange(k + 1, j as int));
            j
        },
        Some(m) => {
            assert(tail.take(m - (k + 1)) =~= t.subrange(k + 1, m as int));
            m
        },
    };
    let (a0, a1) = trim_range(text.as_slice(), start, k);
    let (b0, b1) = trim_range(text.as_slice(), k + 1, second_end);
    match (parse_i32(text.as_slice(), a0, a1), parse_i32(text.as_slice(), b0, b1)) {
        (Some(width), Some(height)) => Some((width, height)),
        _ => None,
    }
}

/// The overlay bounds after an output's description: resized to its logical size when it
/// gives one, unchanged otherwise.
pub fn bounds_from_output(bounds: Bounds, description: &str) -> (b: Bounds)
    ensures
        b == match logical_size_spec(description@) {
            Some((width, height)) => Bounds {
                width: if width > bounds.pet_size { width } else { bounds.pet_size },
                height: if height > bounds.pet_size { height } else { bounds.pet_size },
                ..bounds
            },
            None => bounds,
        },
{
    match parse_logical_size(description) {
        Some((width, height)) => resized_bounds(bounds, width, height),
        None => bounds,
    }
}

/// What a tray command does to the pet's state; see `apply_tray_command`.
pub open spec fn tray_command_result(s: BrainState, command: TrayCommand, bounds: Bounds) -> BrainState {
    match command {
        TrayCommand::TogglePause => BrainState {
            snapshot: PetSnapshot { paused: !s.snapshot.paused, ..s.snapshot },
            ..s
        },
        TrayCommand::ResetPosition => s.with_position(
            bounds.clamp_x_spec(bounds.left + 24),
            bounds.clamp_y_spec(bounds.max_y_spec() - 24),
        ),
        TrayCommand::Quit => s,
    }
}

/// Pausing from the tray twice leaves the pet as it was.
pub proof fn lemma_pause_twice_restores(s: BrainState, bounds: Bounds)
    ensures
        tray_command_result(tray_command_result(s, TrayCommand::TogglePause, bounds), TrayCommand::TogglePause, bounds)
            == s,
{
    let once = tray_command_result(s, TrayCommand::TogglePause, bounds);
    let twice = tray_command_result(once, TrayCommand::TogglePause, bounds);
    assert(twice.snapshot == s.snapshot);
}

/// Resetting the position from the tray twice is the same as once.
pub proof fn lemma_reset_is_idempotent(s: BrainState, bounds: Bounds)
    requires
        bounds.wf(),
        bounds.left + 24 <= i32::MAX,
        bounds.max_y_spec() - 24 >= i32::MIN,
    ensures
        ({
            let once = tray_command_result(s, TrayCommand::ResetPosition, bounds);
            tray_command_result(once, TrayCommand::ResetPosition, bounds) == once
        }),
{
}

proof fn lemma_trim_decimal(v: int)
    ensures
        trim(decimal_int(v)) == decimal_int(v),
        trim(seq![' '] + decimal_int(v)) == decimal_int(v),
        decimal_int(v).len() > 0,
{
    let d = decimal_int(v);
    let m: nat = if v < 0 { (-v) as nat } else { v as nat };
    crate::text::lemma_decimal_reads_back(m);
    assert(d.len() > 0);
    lemma_decimal_chars(v, 0);
    lemma_decimal_chars(v, d.len() - 1);
    assert(trim_start(d) == d);
    assert(d.last() == d[d.len() - 1]);
    assert(trim_end(d) == d);
    let spaced = seq![' '] + d;
    assert(is_whitespace(spaced[0]));
    assert(spaced.drop_first() =~= d);
    assert(trim_start(spaced) == trim_start(d));
}

/// An output description that writes the logical size as a pair of decimal numbers right
/// after the marker, `(w, h)` followed by the closing parentheses, gives back exactly that
/// size, whatever follows.
pub proof fn lemma_logical_size_reads_back(w: i32, h: i32, rest: Seq<char>)
    ensures
        logical_size_spec(
            LOGICAL_SIZE_MARKER@ + decimal_int(w as int) + ", "@ + decimal_int(h as int) + "))"@ + rest,
        ) == Some((w, h)),
{
    reveal_strlit(", ");
    reveal_strlit("))");
    reveal_strlit(",");
    let marker = LOGICAL_SIZE_MARKER@;
    let ww = decimal_int(w as int);
    let hh = decimal_int(h as int);
    lemma_trim_decimal(w as int);
    lemma_trim_decimal(h as int);
    let text = marker + ww + ", "@ + hh + "))"@ + rest;
    assert(text.subrange(0, marker.len() as int) =~= marker);
    lemma_find_first(text, marker, 0, 0);
    let after = text.skip(marker.len() as int);
    assert(after =~= ww + ", "@ + hh + "))"@ + rest);
    let p: int = (ww.len() + 2 + hh.len()) as int;
    assert forall|j: int| 0 <= j < p implies !occurs_at(after, "))"@, j) by {
        if j < ww.len() {
            lemma_decimal_chars(w as int, j);
            assert(after[j] == ww[j]);
        } else if j == ww.len() {
            assert(after[j] == ',');
        } else if j == ww.len() + 1 {
            assert(after[j] == ' ');
        } else {
            lemma_decimal_chars(h as int, j - ww.len() - 2);
            assert(after[j] == hh[j - ww.len() - 2]);
        }
        if occurs_at(after, "))"@, j) {
            assert(after.subrange(j, j + 2)[0] == after[j]);
        }
    }
    assert(after.subrange(p, p + 2) =~= "))"@);
    lemma_find_first(after, "))"@, 0, p);
    let pair = after.take(p);
    assert(pair =~= ww + ", "@ + hh);
    assert forall|j: int| 0 <= j < ww.len() implies !occurs_at(pair, ","@, j) by {
        lemma_decimal_chars(w as int, j);
        assert(pair[j] == ww[j]);
        if occurs_at(pair, ","@, j) {
            assert(pair.subrange(j, j + 1)[0] == pair[j]);
        }
    }
    assert(pair.subrange(ww.len() as int, ww.len() + 1int) =~= ","@);
    lemma_find_first(pair, ","@, 0, ww.len() as int);
    let tail = pair.skip(ww.len() + 1int);
    assert(tail =~= seq![' '] + hh);
    assert forall|j: int| 0 <= j implies !occurs_at(tail, ","@, j) by {
        if occurs_at(tail, ","@, j) {
            assert(tail.subrange(j, j + 1)[0] == tail[j]);
            if j > 0 {
                lemma_decimal_chars(h as int, j - 1);
                assert(tail[j] == hh[j - 1]);
            }
        }
    }
    lemma_find_none(tail, ","@, 0);
    assert(pair.take(ww.len() as int) =~= ww);
    lemma_parse_decimal(w);
    lemma_parse_decimal(h);
}

} // verus!
