//! Control events from a viewer, and the input commands they become on the
//! controlled machine.
use vstd::prelude::*;

verus! {

/// A decoded control message: `action` is `click` or `key`; a click may
/// carry viewer coordinates and a button, a key event a key name.
pub struct RemoteAction {
    pub action: String,
    pub x: Option<i32>,
    pub y: Option<i32>,
    pub button: Option<String>,
    pub key: Option<String>,
}

#[derive(PartialEq, Eq, Structural, Clone, Copy, Debug)]
pub enum MouseButton {
    Left,
    Right,
}

/// The keys the fixed lookup table forwards as single key presses.
#[derive(PartialEq, Eq, Structural, Clone, Copy, Debug)]
pub enum NamedKey {
    Return,
    Backspace,
    Tab,
    Escape,
    UpArrow,
    DownArrow,
    LeftArrow,
    RightArrow,
}

/// One call into the machine's input system.
pub enum InputCommand {
    MoveTo { x: i32, y: i32 },
    Click(MouseButton),
    KeyClick(NamedKey),
    /// Types the text as a sequence of characters.
    TypeText(String),
}

/// How viewer coordinates map to device pixels: the factor the frames were
/// shrunk by, and the display's scale factor in thousandths.
#[derive(PartialEq, Eq, Structural, Clone, Copy, Debug)]
pub struct CoordinateMap {
    pub downscale: u32,
    pub scale_milli: u32,
}

/// Division by a positive number, rounding toward zero.
pub open spec fn trunc_div(a: int, d: int) -> int {
    if a >= 0 {
        a / d
    } else {
        -((-a) / d)
    }
}

/// `v` brought into the range of `i32`.
pub open spec fn saturate_i32(v: int) -> i32 {
    if v < i32::MIN {
        i32::MIN
    } else if v > i32::MAX {
        i32::MAX
    } else {
        v as i32
    }
}

/// The device coordinate of viewer coordinate `v`: `v * downscale * scale`,
/// rounded toward zero and held to the range of `i32`.
pub open spec fn device_coord(v: int, map: CoordinateMap) -> i32 {
    saturate_i32(trunc_div(v * map.downscale * map.scale_milli, 1000))
}

/// Maps one viewer coordinate to device pixels.
pub fn map_coordinate(v: i32, map: CoordinateMap) -> (r: i32)
    ensures
        r == device_coord(v as int, map),
{
    let f = map.downscale as i128;
    let s = map.scale_milli as i128;
    let vv = v as i128;
    proof {
        assert(-0x8000_0000 * 0x1_0000_0000 <= vv * f <= 0x8000_0000 * 0x1_0000_0000) by (nonlinear_arith)
            requires -0x8000_0000 <= vv <= 0x8000_0000, 0 <= f <= 0x1_0000_0000;
        assert(-0x8000_0000 * 0x1_0000_0000 * 0x1_0000_0000 <= (vv * f) * s <= 0x8000_0000 * 0x1_0000_0000
            * 0x1_0000_0000) by (nonlinear_arith)
            requires
                -0x8000_0000 * 0x1_0000_0000 <= vv * f <= 0x8000_0000 * 0x1_0000_0000,
                0 <= s <= 0x1_0000_0000;
    }
    let p = vv * f * s;
    let q: i128 = if p >= 0 { p / 1000 } else { -((-p) / 1000) };
    if q < i32::MIN as i128 {
        i32::MIN
    } else if q > i32::MAX as i128 {
        i32::MAX
    } else {
        q as i32
    }
}

/// Whether a string holds exactly the characters of a literal.
fn is_literal(s: &String, lit: &str) -> (r: bool)
    ensures
        r == (s@ == lit@),
{
    let owned = lit.to_owned();
    *s == owned
}

/// What a key name becomes: one press of a named key, nothing for the
/// modifier keys (which are not forwarded on their own), or the name typed
/// as text.
pub open spec fn key_command(k: String) -> Option<InputCommand> {
    if k@ == "Enter"@ {
        Some(InputCommand::KeyClick(NamedKey::Return))
    } else if k@ == "Backspace"@ {
        Some(InputCommand::KeyClick(NamedKey::Backspace))
    } else if k@ == "Tab"@ {
        Some(InputCommand::KeyClick(NamedKey::Tab))
    } else if k@ == "Escape"@ {
        Some(InputCommand::KeyClick(NamedKey::Escape))
    } else if k@ == "ArrowUp"@ {
        Some(InputCommand::KeyClick(NamedKey::UpArrow))
    } else if k@ == "ArrowDown"@ {
        Some(InputCommand::KeyClick(NamedKey::DownArrow))
    } else if k@ == "ArrowLeft"@ {
        Some(InputCommand::KeyClick(NamedKey::LeftArrow))
    } else if k@ == "ArrowRight"@ {
        Some(InputCommand::KeyClick(NamedKey::RightArrow))
    } else if k@ == "Shift"@ || k@ == "Control"@ || k@ == "Alt"@ {
        None
    } else {
        Some(InputCommand::TypeText(k))
    }
}

/// Looks a key name up in the fixed table.
pub fn map_key(k: &String) -> (r: Option<InputCommand>)
    ensures
        r == key_command(*k),
{
    if is_literal(k, "Enter") {
        Some(InputCommand::KeyClick(NamedKey::Return))
    } else if is_literal(k, "Backspace") {
        Some(InputCommand::KeyClick(NamedKey::Backspace))
    } else if is_literal(k, "Tab") {
        Some(InputCommand::KeyClick(NamedKey::Tab))
    } else if is_literal(k, "Escape") {
        Some(InputCommand::KeyClick(NamedKey::Escape))
    } else if is_literal(k, "ArrowUp") {
        Some(InputCommand::KeyClick(NamedKey::UpArrow))
    } else if is_literal(k, "ArrowDown") {
        Some(InputCommand::KeyClick(NamedKey::DownArrow))
    } else if is_literal(k, "ArrowLeft") {
        Some(InputCommand::KeyClick(NamedKey::LeftArrow))
    } else if is_literal(k, "ArrowRight") {
        Some(InputCommand::KeyClick(NamedKey::RightArrow))
    } else if is_literal(k, "Shift") || is_literal(k, "Control") || is_literal(k, "Alt") {
        None
    } else {
        Some(InputCommand::TypeText(k.clone()))
    }
}

/// The button a click names: right only when it says `right`.
pub open spec fn button_of(b: Option<String>) -> MouseButton {
    match b {
        Some(s) => if s@ == "right"@ {
            MouseButton::Right
        } else {
            MouseButton::Left
        },
        None => MouseButton::Left,
    }
}

/// The value of an optional coordinate, zero when absent.
pub open spec fn coord_or_zero(c: Option<i32>) -> int {
    match c {
        Some(v) => v as int,
        None => 0,
    }
}

/// The input commands a control message leads to, in the order they are
/// issued: a move to the mapped point and then a click; the key's command;
/// or nothing for anything else.
pub open spec fn planned(a: RemoteAction, map: CoordinateMap) -> Seq<InputCommand> {
    if a.action@ == "click"@ {
        seq![
            InputCommand::MoveTo {
                x: device_coord(coord_or_zero(a.x), map),
                y: device_coord(coord_or_zero(a.y), map),
            },
            InputCommand::Click(button_of(a.button)),
        ]
    } else if a.action@ == "key"@ {
        match a.key {
            Some(k) => match key_command(k) {
                Some(c) => seq![c],
                None => seq![],
            },
            None => seq![],
        }
    } else {
        seq![]
    }
}

/// Turns a control message into input commands.
pub fn plan_input(a: &RemoteAction, map: CoordinateMap) -> (r: Vec<InputCommand>)
    ensures
        r@ == planned(*a, map),
{
    let mut out: Vec<InputCommand> = Vec::new();
    if is_literal(&a.action, "click") {
        let x = match a.x {
            Some(v) => v,
            None => 0i32,
        };
        let y = match a.y {
            Some(v) => v,
            None => 0i32,
        };
        let button = match &a.button {
            Some(b) => if is_literal(b, "right") {
                MouseButton::Right
            } else {
                MouseButton::Left
            },
            None => MouseButton::Left,
        };
        out.push(InputCommand::MoveTo { x: map_coordinate(x, map), y: map_coordinate(y, map) });
        out.push(InputCommand::Click(button));
    } else if is_literal(&a.action, "key") {
        match &a.key {
            Some(k) => match map_key(k) {
                Some(c) => out.push(c),
                None => {},
            },
            None => {},
        }
    }
    assert(out@ =~= planned(*a, map));
    out
}

/// A click at viewer point `(x, y)` moves the pointer to
/// `(x * downscale * scale, y * downscale * scale)` first and clicks after.
pub proof fn lemma_click_moves_first(a: RemoteAction, map: CoordinateMap, x: i32, y: i32)
    requires
        a.action@ == "click"@,
        a.x == Some(x),
        a.y == Some(y),
    ensures
        planned(a, map).len() == 2,
        planned(a, map)[0] == (InputCommand::MoveTo {
            x: saturate_i32(trunc_div(x * map.downscale * map.scale_milli, 1000)),
            y: saturate_i32(trunc_div(y * map.downscale * map.scale_milli, 1000)),
        }),
        planned(a, map)[1] is Click,
{
}

} // verus!
