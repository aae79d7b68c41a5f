//! The line protocol behind the control socket.
//!
//! Each line is one command: a finger, a key, a query or a control verb. A
//! command is read ([`parse_line`]), acted on ([`Control::dispatch`]), and
//! answered with one line. Swipes, held keys, touches and `settle` take time;
//! they hold the one in-flight slot until a later tick ([`Control::drain`])
//! answers them, and no new command is taken before that.
//!
//! The gesture verbs answer `ok locked` and do nothing while the session is
//! locked. `key` still goes through: that is how a scripted password reaches
//! the lock client.
//!
//! A coordinate is a single-precision number and is carried as its bit pattern.
use vstd::prelude::*;

use crate::rotation::{orientation_named, DeviceOrientation};
use crate::text::{
    answers, chars_of, concat, concat3, copy, read_u32, same, strings_of, texts, total, words,
    words_of, written_within,
};
use crate::time::{elapsed, from_millis, millis, since, Nanos, MILLI};

verus! {

/// The bit pattern of a single-precision number.
pub type Coord = u32;

/// Where a number lies among all numbers: a greater number has a greater rank,
/// the two zeros have the same, and what is not a number has none.
pub open spec fn rank(bits: Coord) -> Option<int> {
    let magnitude = bits % 0x8000_0000u32;
    if magnitude > 0x7f80_0000 {
        None
    } else if bits >= 0x8000_0000 {
        Some(-(magnitude as int))
    } else {
        Some(magnitude as int)
    }
}

/// Whether both are numbers and the first is not the greater one.
pub open spec fn at_most(a: Coord, b: Coord) -> bool {
    rank(a) is Some && rank(b) is Some && rank(a)->0 <= rank(b)->0
}

/// Whether a point lies on the output, its edges included.
pub open spec fn in_bounds(x: Coord, y: Coord, w: Coord, h: Coord) -> bool {
    at_most(0, x) && at_most(x, w) && at_most(0, y) && at_most(y, h)
}

fn rank_of(bits: Coord) -> (r: Option<i64>)
    ensures
        match r {
            Some(n) => rank(bits) == Some(n as int),
            None => rank(bits) is None,
        },
{
    let magnitude: u32 = bits % 0x8000_0000;
    if magnitude > 0x7f80_0000 {
        None
    } else if bits >= 0x8000_0000 {
        Some(-(magnitude as i64))
    } else {
        Some(magnitude as i64)
    }
}

pub(crate) fn is_at_most(a: Coord, b: Coord) -> (r: bool)
    ensures
        r == at_most(a, b),
{
    match (rank_of(a), rank_of(b)) {
        (Some(x), Some(y)) => x <= y,
        _ => false,
    }
}

/// Whether a point lies on the output, its edges included.
pub fn on_output(x: Coord, y: Coord, w: Coord, h: Coord) -> (r: bool)
    ensures
        r == in_bounds(x, y, w, h),
{
    is_at_most(0, x) && is_at_most(x, w) && is_at_most(0, y) && is_at_most(y, h)
}

/// A command from the control socket.
#[derive(Debug, PartialEq)]
pub enum DebugCmd {
    Down(Coord, Coord),
    Move(Coord, Coord),
    Up,
    Tap(Coord, Coord),
    Swipe { from: (Coord, Coord), to: (Coord, Coord), dur_ms: u32 },
    /// Answer once the shell is idle, or report a timeout.
    Settle { timeout_ms: u32 },
    /// Press a key by keysym name, and release it after `hold_ms`.
    Key { name: String, hold_ms: u32 },
    /// Press or release a key by keysym name and leave it so. It takes no
    /// in-flight slot, so a modifier stays down while the next verb runs.
    KeyHold { name: String, down: bool },
    /// A touch through the surface-routing path.
    Touch(Coord, Coord),
    /// Pretend that the device was turned.
    Orientation(DeviceOrientation),
    /// Read the configuration again.
    Reload,
    /// Shut the compositor down.
    Quit,
    /// Report every layer surface and layer popup.
    Layers,
    /// Open an app by id: raise its window, or start it; `new_window` forces a
    /// fresh instance.
    Launch { app_id: String, new_window: bool },
}

/// What a command says.
pub enum CmdView {
    Down(Coord, Coord),
    Move(Coord, Coord),
    Up,
    Tap(Coord, Coord),
    Swipe { from: (Coord, Coord), to: (Coord, Coord), dur_ms: u32 },
    Settle { timeout_ms: u32 },
    Key { name: Seq<char>, hold_ms: u32 },
    KeyHold { name: Seq<char>, down: bool },
    Touch(Coord, Coord),
    Orientation(DeviceOrientation),
    Reload,
    Quit,
    Layers,
    Launch { app_id: Seq<char>, new_window: bool },
}

impl View for DebugCmd {
    type V = CmdView;

    open spec fn view(&self) -> CmdView {
        match *self {
            DebugCmd::Down(x, y) => CmdView::Down(x, y),
            DebugCmd::Move(x, y) => CmdView::Move(x, y),
            DebugCmd::Up => CmdView::Up,
            DebugCmd::Tap(x, y) => CmdView::Tap(x, y),
            DebugCmd::Swipe { from, to, dur_ms } => CmdView::Swipe { from, to, dur_ms },
            DebugCmd::Settle { timeout_ms } => CmdView::Settle { timeout_ms },
            DebugCmd::Key { name, hold_ms } => CmdView::Key { name: name@, hold_ms },
            DebugCmd::KeyHold { name, down } => CmdView::KeyHold { name: name@, down },
            DebugCmd::Touch(x, y) => CmdView::Touch(x, y),
            DebugCmd::Orientation(o) => CmdView::Orientation(o),
            DebugCmd::Reload => CmdView::Reload,
            DebugCmd::Quit => CmdView::Quit,
            DebugCmd::Layers => CmdView::Layers,
            DebugCmd::Launch { app_id, new_window } => CmdView::Launch {
                app_id: app_id@,
                new_window,
            },
        }
    }
}

// ---------------------------------------------------------------------------
// Reading a line
// ---------------------------------------------------------------------------

/// A word of a line, and the number that it writes, if it writes one.
#[derive(Debug)]
pub struct Token {
    pub text: String,
    pub number: Option<Coord>,
}

/// What a token says.
pub struct TokenView {
    pub text: Seq<char>,
    pub number: Option<Coord>,
}

pub open spec fn token_view(t: Token) -> TokenView {
    TokenView { text: t.text@, number: t.number }
}

/// What the tokens of a line say.
pub open spec fn token_views(ts: Seq<Token>) -> Seq<TokenView> {
    ts.map_values(|t: Token| token_view(t))
}

/// What came of reading: a value, or an error tag.
pub open spec fn outcome<T>(r: Result<T, String>) -> Result<T, Seq<char>> {
    match r {
        Ok(v) => Ok(v),
        Err(e) => Err(e@),
    }
}

/// The number that the argument at `i` writes.
pub open spec fn number_at(t: Seq<TokenView>, i: int) -> Result<Coord, Seq<char>> {
    if i >= t.len() {
        Err("parse: missing arg"@)
    } else {
        match t[i].number {
            Some(n) => Ok(n),
            None => Err("parse: not a number"@),
        }
    }
}

/// The point that the arguments at `i` and `i + 1` write.
pub open spec fn point_at(t: Seq<TokenView>, i: int) -> Result<(Coord, Coord), Seq<char>> {
    match number_at(t, i) {
        Err(e) => Err(e),
        Ok(x) => match number_at(t, i + 1) {
            Err(e) => Err(e),
            Ok(y) => Ok((x, y)),
        },
    }
}

/// The whole number at `i`, or `default` where the line has ended.
pub open spec fn integer_at(t: Seq<TokenView>, i: int, default: u32) -> Result<u32, Seq<char>> {
    if i >= t.len() {
        Ok(default)
    } else {
        match written_within(t[i].text, 0, u32::MAX as int) {
            Some(n) => Ok(n as u32),
            None => Err("parse: not an integer"@),
        }
    }
}

/// The word at `i`, or `missing` where the line has ended.
pub open spec fn word_at(t: Seq<TokenView>, i: int, missing: Seq<char>) -> Result<Seq<char>, Seq<char>> {
    if i >= t.len() {
        Err(missing)
    } else {
        Ok(t[i].text)
    }
}

/// `cmd`, if the line ends before `i`.
pub open spec fn ending_at(t: Seq<TokenView>, i: int, cmd: CmdView) -> Result<CmdView, Seq<char>> {
    if t.len() > i {
        Err("parse: trailing tokens"@)
    } else {
        Ok(cmd)
    }
}

/// The command of a verb that takes one point and nothing else.
pub open spec fn point_command(t: Seq<TokenView>, w: Coord, h: Coord) -> Result<CmdView, Seq<char>> {
    match point_at(t, 1) {
        Err(e) => Err(e),
        Ok((x, y)) => if t.len() > 3 {
            Err("parse: trailing tokens"@)
        } else if !in_bounds(x, y, w, h) {
            Err("range"@)
        } else if t[0].text == "down"@ {
            Ok(CmdView::Down(x, y))
        } else if t[0].text == "move"@ {
            Ok(CmdView::Move(x, y))
        } else if t[0].text == "tap"@ {
            Ok(CmdView::Tap(x, y))
        } else {
            Ok(CmdView::Touch(x, y))
        },
    }
}

pub open spec fn swipe_command(t: Seq<TokenView>, w: Coord, h: Coord) -> Result<CmdView, Seq<char>> {
    match point_at(t, 1) {
        Err(e) => Err(e),
        Ok(from) => match point_at(t, 3) {
            Err(e) => Err(e),
            Ok(to) => match integer_at(t, 5, 200) {
                Err(e) => Err(e),
                Ok(dur_ms) => if t.len() > 6 {
                    Err("parse: trailing tokens"@)
                } else if !in_bounds(from.0, from.1, w, h) || !in_bounds(to.0, to.1, w, h) {
                    Err("range"@)
                } else {
                    Ok(CmdView::Swipe { from, to, dur_ms })
                },
            },
        },
    }
}

pub open spec fn orientation_command(t: Seq<TokenView>) -> Result<CmdView, Seq<char>> {
    match word_at(t, 1, "parse: missing orientation"@) {
        Err(e) => Err(e),
        Ok(name) => if t.len() > 2 {
            Err("parse: trailing tokens"@)
        } else if orientation_named(name) == DeviceOrientation::Undefined && name
            != "undefined"@ {
            Err("parse: unknown orientation "@ + name)
        } else {
            Ok(CmdView::Orientation(orientation_named(name)))
        },
    }
}

pub open spec fn key_command(t: Seq<TokenView>) -> Result<CmdView, Seq<char>> {
    match word_at(t, 1, "parse: missing key name"@) {
        Err(e) => Err(e),
        Ok(name) => match integer_at(t, 2, 0) {
            Err(e) => Err(e),
            Ok(hold_ms) => ending_at(t, 3, CmdView::Key { name, hold_ms }),
        },
    }
}

pub open spec fn key_hold_command(t: Seq<TokenView>) -> Result<CmdView, Seq<char>> {
    match word_at(t, 1, "parse: missing key name"@) {
        Err(e) => Err(e),
        Ok(name) => ending_at(
            t,
            2,
            CmdView::KeyHold { name, down: t[0].text == "keydown"@ },
        ),
    }
}

pub open spec fn settle_command(t: Seq<TokenView>) -> Result<CmdView, Seq<char>> {
    match integer_at(t, 1, 2000) {
        Err(e) => Err(e),
        Ok(timeout_ms) => ending_at(t, 2, CmdView::Settle { timeout_ms }),
    }
}

pub open spec fn open_command(t: Seq<TokenView>) -> Result<CmdView, Seq<char>> {
    match word_at(t, 1, "parse: missing app id"@) {
        Err(e) => Err(e),
        Ok(app_id) => if t.len() > 2 && t[2].text != "new"@ {
            Err("parse: unknown launch flag "@ + t[2].text)
        } else {
            ending_at(t, 3, CmdView::Launch { app_id, new_window: t.len() > 2 })
        },
    }
}

/// The command that a line of tokens gives on an output of `w` by `h`, or the
/// tag of the first thing wrong with it.
pub open spec fn command(t: Seq<TokenView>, w: Coord, h: Coord) -> Result<CmdView, Seq<char>> {
    if t.len() == 0 {
        Err("parse: empty"@)
    } else if t[0].text == "down"@ || t[0].text == "move"@ || t[0].text == "tap"@ || t[0].text
        == "touch"@ {
        point_command(t, w, h)
    } else if t[0].text == "orientation"@ {
        orientation_command(t)
    } else if t[0].text == "up"@ {
        ending_at(t, 1, CmdView::Up)
    } else if t[0].text == "reload"@ {
        ending_at(t, 1, CmdView::Reload)
    } else if t[0].text == "layers"@ {
        ending_at(t, 1, CmdView::Layers)
    } else if t[0].text == "quit"@ {
        ending_at(t, 1, CmdView::Quit)
    } else if t[0].text == "swipe"@ {
        swipe_command(t, w, h)
    } else if t[0].text == "key"@ {
        key_command(t)
    } else if t[0].text == "keydown"@ || t[0].text == "keyup"@ {
        key_hold_command(t)
    } else if t[0].text == "settle"@ {
        settle_command(t)
    } else if t[0].text == "launch"@ {
        open_command(t)
    } else {
        Err("parse: unknown verb "@ + t[0].text)
    }
}

fn number(t: &Vec<Token>, i: usize) -> (r: Result<Coord, String>)
    ensures
        outcome(r) == number_at(token_views(t@), i as int),
{
    if i >= t.len() {
        return Err(copy("parse: missing arg"));
    }
    match t[i].number {
        Some(n) => Ok(n),
        None => Err(copy("parse: not a number")),
    }
}

fn point(t: &Vec<Token>, i: usize) -> (r: Result<(Coord, Coord), String>)
    requires
        i < usize::MAX,
    ensures
        outcome(r) == point_at(token_views(t@), i as int),
{
    match number(t, i) {
        Err(e) => Err(e),
        Ok(x) => match number(t, i + 1) {
            Err(e) => Err(e),
            Ok(y) => Ok((x, y)),
        },
    }
}

fn integer(t: &Vec<Token>, i: usize, default: u32) -> (r: Result<u32, String>)
    ensures
        outcome(r) == integer_at(token_views(t@), i as int, default),
{
    if i >= t.len() {
        return Ok(default);
    }
    match read_u32(t[i].text.as_str()) {
        Some(n) => Ok(n),
        None => Err(copy("parse: not an integer")),
    }
}

fn word(t: &Vec<Token>, i: usize, missing: &str) -> (r: Result<String, String>)
    ensures
        match r {
            Ok(s) => word_at(token_views(t@), i as int, missing@) == Ok::<Seq<char>, Seq<char>>(s@),
            Err(e) => word_at(token_views(t@), i as int, missing@) == Err::<Seq<char>, Seq<char>>(
                e@,
            ),
        },
{
    if i >= t.len() {
        return Err(copy(missing));
    }
    Ok(copy(t[i].text.as_str()))
}

/// What came of reading a command.
pub open spec fn command_outcome(r: Result<DebugCmd, String>) -> Result<CmdView, Seq<char>> {
    match r {
        Ok(c) => Ok(c@),
        Err(e) => Err(e@),
    }
}

fn ending(t: &Vec<Token>, i: usize, cmd: DebugCmd) -> (r: Result<DebugCmd, String>)
    ensures
        command_outcome(r) == ending_at(token_views(t@), i as int, cmd@),
{
    if t.len() > i {
        Err(copy("parse: trailing tokens"))
    } else {
        Ok(cmd)
    }
}

fn read_point_command(t: &Vec<Token>, w: Coord, h: Coord) -> (r: Result<DebugCmd, String>)
    requires
        t.len() > 0,
    ensures
        command_outcome(r) == point_command(token_views(t@), w, h),
{
    let (x, y) = match point(t, 1) {
        Err(e) => return Err(e),
        Ok(p) => p,
    };
    if t.len() > 3 {
        return Err(copy("parse: trailing tokens"));
    }
    if !on_output(x, y, w, h) {
        return Err(copy("range"));
    }
    let verb: &str = t[0].text.as_str();
    if same(verb, "down") {
        Ok(DebugCmd::Down(x, y))
    } else if same(verb, "move") {
        Ok(DebugCmd::Move(x, y))
    } else if same(verb, "tap") {
        Ok(DebugCmd::Tap(x, y))
    } else {
        Ok(DebugCmd::Touch(x, y))
    }
}

fn read_swipe_command(t: &Vec<Token>, w: Coord, h: Coord) -> (r: Result<DebugCmd, String>)
    ensures
        command_outcome(r) == swipe_command(token_views(t@), w, h),
{
    let from: (Coord, Coord) = match point(t, 1) {
        Err(e) => return Err(e),
        Ok(p) => p,
    };
    let to: (Coord, Coord) = match point(t, 3) {
        Err(e) => return Err(e),
        Ok(p) => p,
    };
    let dur_ms: u32 = match integer(t, 5, 200) {
        Err(e) => return Err(e),
        Ok(n) => n,
    };
    if t.len() > 6 {
        return Err(copy("parse: trailing tokens"));
    }
    if !on_output(from.0, from.1, w, h) || !on_output(to.0, to.1, w, h) {
        return Err(copy("range"));
    }
    Ok(DebugCmd::Swipe { from, to, dur_ms })
}

fn read_orientation_command(t: &Vec<Token>) -> (r: Result<DebugCmd, String>)
    ensures
        command_outcome(r) == orientation_command(token_views(t@)),
{
    let name: String = match word(t, 1, "parse: missing orientation") {
        Err(e) => return Err(e),
        Ok(s) => s,
    };
    if t.len() > 2 {
        return Err(copy("parse: trailing tokens"));
    }
    let o: DeviceOrientation = DeviceOrientation::from_sensor(name.as_str());
    if o == DeviceOrientation::Undefined && !same(name.as_str(), "undefined") {
        return Err(concat("parse: unknown orientation ", name.as_str()));
    }
    Ok(DebugCmd::Orientation(o))
}

fn read_key_command(t: &Vec<Token>) -> (r: Result<DebugCmd, String>)
    ensures
        command_outcome(r) == key_command(token_views(t@)),
{
    let name: String = match word(t, 1, "parse: missing key name") {
        Err(e) => return Err(e),
        Ok(s) => s,
    };
    let hold_ms: u32 = match integer(t, 2, 0) {
        Err(e) => return Err(e),
        Ok(n) => n,
    };
    ending(t, 3, DebugCmd::Key { name, hold_ms })
}

fn read_key_hold_command(t: &Vec<Token>) -> (r: Result<DebugCmd, String>)
    requires
        t.len() > 0,
    ensures
        command_outcome(r) == key_hold_command(token_views(t@)),
{
    let name: String = match word(t, 1, "parse: missing key name") {
        Err(e) => return Err(e),
        Ok(s) => s,
    };
    let down: bool = same(t[0].text.as_str(), "keydown");
    ending(t, 2, DebugCmd::KeyHold { name, down })
}

fn read_settle_command(t: &Vec<Token>) -> (r: Result<DebugCmd, String>)
    ensures
        command_outcome(r) == settle_command(token_views(t@)),
{
    match integer(t, 1, 2000) {
        Err(e) => Err(e),
        Ok(timeout_ms) => ending(t, 2, DebugCmd::Settle { timeout_ms }),
    }
}

fn read_launch_command(t: &Vec<Token>) -> (r: Result<DebugCmd, String>)
    ensures
        command_outcome(r) == open_command(token_views(t@)),
{
    let app_id: String = match word(t, 1, "parse: missing app id") {
        Err(e) => return Err(e),
        Ok(s) => s,
    };
    if t.len() > 2 && !same(t[2].text.as_str(), "new") {
        return Err(concat("parse: unknown launch flag ", t[2].text.as_str()));
    }
    ending(t, 3, DebugCmd::Launch { app_id, new_window: t.len() > 2 })
}

/// Read the tokens of one line. `w` and `h` bound the coordinates, inclusively.
pub fn parse_tokens(t: &Vec<Token>, w: Coord, h: Coord) -> (r: Result<DebugCmd, String>)
    ensures
        command_outcome(r) == command(token_views(t@), w, h),
{
    if t.len() == 0 {
        return Err(copy("parse: empty"));
    }
    let verb: &str = t[0].text.as_str();
    if same(verb, "down") || same(verb, "move") || same(verb, "tap") || same(verb, "touch") {
        read_point_command(t, w, h)
    } else if same(verb, "orientation") {
        read_orientation_command(t)
    } else if same(verb, "up") {
        ending(t, 1, DebugCmd::Up)
    } else if same(verb, "reload") {
        ending(t, 1, DebugCmd::Reload)
    } else if same(verb, "layers") {
        ending(t, 1, DebugCmd::Layers)
    } else if same(verb, "quit") {
        ending(t, 1, DebugCmd::Quit)
    } else if same(verb, "swipe") {
        read_swipe_command(t, w, h)
    } else if same(verb, "key") {
        read_key_command(t)
    } else if same(verb, "keydown") || same(verb, "keyup") {
        read_key_hold_command(t)
    } else if same(verb, "settle") {
        read_settle_command(t)
    } else if same(verb, "launch") {
        read_launch_command(t)
    } else {
        Err(concat("parse: unknown verb ", verb))
    }
}

/// Whether `t` are the words of `line`, each with what `number` answers for it.
pub open spec fn tokens_of<F: Fn(&str) -> Option<Coord>>(
    line: Seq<char>,
    number: F,
    t: Seq<TokenView>,
) -> bool {
    &&& t.len() == words(line).len()
    &&& forall|i: int|
        0 <= i < t.len() ==> (#[trigger] t[i]).text == words(line)[i] && answers(
            number,
            t[i].text,
            t[i].number,
        )
}

/// Read one line. `number` reads a word as a single-precision number; it is
/// asked once about each word.
pub fn parse_line<F: Fn(&str) -> Option<Coord>>(line: &str, w: Coord, h: Coord, number: F) -> (r:
    Result<DebugCmd, String>)
    requires
        total(number),
    ensures
        exists|t: Seq<TokenView>|
            tokens_of(line@, number, t) && command_outcome(r) == command(t, w, h),
{
    let found: Vec<String> = strings_of(&words_of(&chars_of(line)));
    let mut t: Vec<Token> = Vec::new();
    let mut i: usize = 0;
    while i < found.len()
        invariant
            i <= found.len(),
            t.len() == i,
            total(number),
            forall|j: int|
                0 <= j < i ==> (#[trigger] t@[j]).text@ == found@[j]@ && answers(
                    number,
                    t@[j].text@,
                    t@[j].number,
                ),
        decreases found.len() - i,
    {
        let text: String = copy(found[i].as_str());
        let value: Option<Coord> = number(text.as_str());
        t.push(Token { text, number: value });
        i = i + 1;
    }
    proof {
        let v = token_views(t@);
        assert forall|j: int| 0 <= j < v.len() implies (#[trigger] v[j]).text == words(line@)[j]
            && answers(number, v[j].text, v[j].number) by {
            assert(texts(found@)[j] == found@[j]@);
            assert(t@[j].text@ == found@[j]@);
        }
        assert(texts(found@).len() == found@.len());
        assert(tokens_of(line@, number, v));
    }
    parse_tokens(&t, w, h)
}

/// The answer to a line that could not be read.
pub open spec fn refused(e: Seq<char>) -> Seq<char> {
    "err "@ + e + "\n"@
}

/// The answer to a line that could not be read.
pub fn refusal(e: &str) -> (r: String)
    ensures
        r@ == refused(e@),
{
    concat3("err ", e, "\n")
}

// ---------------------------------------------------------------------------
// Acting on a command
// ---------------------------------------------------------------------------

/// A swipe that is carried on from tick to tick.
#[derive(Clone, Copy, Debug)]
pub struct ActiveGesture {
    pub start: Nanos,
    pub dur_ms: u32,
    pub from: (Coord, Coord),
    pub to: (Coord, Coord),
    /// Whether the finger is down yet.
    pub started: bool,
}

/// A key that is held down, and when it comes up.
#[derive(Clone, Copy, Debug)]
pub struct ActiveKey {
    pub keycode: u32,
    pub release_at: Nanos,
}

/// A touch that is held down, and when it is lifted.
#[derive(Clone, Copy, Debug)]
pub struct ActiveTouch {
    pub release_at: Nanos,
}

/// How long a touch is held, so that clients see a tap and not a flicker.
pub const TOUCH_HOLD_MS: u64 = 120;

/// The commands in flight.
#[derive(Clone, Copy, Debug)]
pub struct Control {
    pub active_gesture: Option<ActiveGesture>,
    pub active_key: Option<ActiveKey>,
    pub active_touch: Option<ActiveTouch>,
    /// The deadline of a `settle` that waits for the shell to come to rest.
    pub pending_settle: Option<Nanos>,
}

/// What the shell is to do, in order.
#[derive(Clone, Copy, Debug, PartialEq, Eq, Structural)]
pub enum Step {
    /// The finger is at this point.
    Motion(Coord, Coord),
    /// The finger goes down where it is.
    Press,
    /// The finger comes up where it is.
    Release,
    /// The finger is on its way along the swipe: `elapsed_ms` of its duration.
    Glide(u128),
    /// A key goes down or comes up.
    Key(u32, bool),
    /// A touch through the surface-routing path goes down at this point.
    TouchDown(Coord, Coord),
    /// That touch is lifted.
    TouchUp,
    /// The batch of simultaneous touch changes is complete.
    TouchFrame,
    /// The device was turned.
    Orientation(DeviceOrientation),
    /// Read the configuration again.
    Reload,
    /// Open the app that the command names: start an instance when true, else
    /// raise its window or start it.
    Open(bool),
    /// Draw a frame.
    Render,
    /// Leave the main loop.
    Quit,
}

/// What came of a tick or a command.
#[derive(Debug)]
pub struct Outcome {
    /// The command counts as user activity.
    pub activity: bool,
    /// The mouse cursor is to be hidden, and a frame drawn.
    pub hide_cursor: bool,
    pub steps: Vec<Step>,
    /// The answer, once there is one.
    pub reply: Option<String>,
    /// The answer goes out before the steps are taken, since nothing answers
    /// after them.
    pub reply_first: bool,
}

/// What looking a key name up gave.
#[derive(Clone, Copy, Debug, PartialEq, Eq, Structural)]
pub enum KeyLookup {
    /// There is no keysym of that name.
    UnknownKeysym,
    /// No key of the active layout gives the keysym.
    Unmapped,
    /// The keycode that gives it.
    Code(u32),
}

/// What is known of the shell when a command is acted on.
#[derive(Debug)]
pub struct Situation {
    pub now: Nanos,
    /// The session is locked.
    pub locked: bool,
    pub cursor_visible: bool,
    /// The shell is at rest (see [`idle`]).
    pub idle: bool,
    /// What the key name of the command stands for.
    pub key: KeyLookup,
    /// The app that the command names is in the catalog.
    pub known_app: bool,
    /// The report that `layers` answers with.
    pub layers: String,
}

impl Situation {
    /// The clock leaves room for the longest hold or timeout.
    pub open spec fn clock_in_range(self) -> bool {
        self.now + from_millis(u32::MAX as int) <= u128::MAX
    }
}

/// Commands that count as user activity: all but the queries and the control
/// verbs.
pub open spec fn is_activity(cmd: CmdView) -> bool {
    !(cmd is Settle || cmd is Reload || cmd is Layers || cmd is Quit)
}

/// Commands that a locked session takes no notice of.
pub open spec fn stopped_by_lock(cmd: CmdView) -> bool {
    cmd is Down || cmd is Move || cmd is Up || cmd is Tap || cmd is Swipe || cmd is Launch
}

/// Commands that put a finger on the screen.
pub open spec fn is_contact(cmd: CmdView) -> bool {
    cmd is Down || cmd is Tap || cmd is Swipe
}

/// What the shell does for a command that the lock does not stop, which
/// commands are in flight then, and the answer if there is one already.
pub open spec fn acted(c: Control, cmd: CmdView, s: Situation) -> (Seq<Step>, Control, Option<
    Seq<char>,
>) {
    let ok = Some("ok\n"@);
    match cmd {
        CmdView::Down(x, y) => (seq![Step::Motion(x, y), Step::Press], c, ok),
        CmdView::Move(x, y) => (seq![Step::Motion(x, y)], c, ok),
        CmdView::Up => (seq![Step::Release], c, ok),
        CmdView::Tap(x, y) => (seq![Step::Motion(x, y), Step::Press, Step::Release], c, ok),
        CmdView::Swipe { from, to, dur_ms } => (
            seq![],
            Control {
                active_gesture: Some(
                    ActiveGesture { start: s.now, dur_ms, from, to, started: false },
                ),
                ..c
            },
            None,
        ),
        CmdView::Key { name, hold_ms } => match s.key {
            KeyLookup::UnknownKeysym => (seq![], c, Some("err unknown-keysym\n"@)),
            KeyLookup::Unmapped => (seq![], c, Some("err unmapped-keysym\n"@)),
            KeyLookup::Code(keycode) => (
                seq![Step::Key(keycode, true)],
                Control {
                    active_key: Some(
                        ActiveKey {
                            keycode,
                            release_at: (s.now + from_millis(hold_ms as int)) as Nanos,
                        },
                    ),
                    ..c
                },
                None,
            ),
        },
        CmdView::KeyHold { name, down } => match s.key {
            KeyLookup::UnknownKeysym => (seq![], c, Some("err unknown-keysym\n"@)),
            KeyLookup::Unmapped => (seq![], c, Some("err unmapped-keysym\n"@)),
            KeyLookup::Code(keycode) => (seq![Step::Key(keycode, down)], c, ok),
        },
        CmdView::Orientation(o) => (seq![Step::Orientation(o)], c, ok),
        CmdView::Touch(x, y) => (
            seq![Step::TouchDown(x, y), Step::TouchFrame],
            Control {
                active_touch: Some(
                    ActiveTouch {
                        release_at: (s.now + from_millis(TOUCH_HOLD_MS as int)) as Nanos,
                    },
                ),
                ..c
            },
            None,
        ),
        CmdView::Reload => (seq![Step::Reload], c, ok),
        CmdView::Layers => (seq![], c, Some("ok "@ + s.layers@ + "\n"@)),
        CmdView::Quit => (seq![Step::Quit], c, ok),
        CmdView::Launch { app_id, new_window } => if !s.known_app {
            (seq![], c, Some("err unknown app "@ + app_id + "\n"@))
        } else {
            (seq![Step::Open(new_window), Step::Render], c, ok)
        },
        CmdView::Settle { timeout_ms } => if s.idle {
            (seq![], c, ok)
        } else {
            (
                seq![],
                Control {
                    pending_settle: Some((s.now + from_millis(timeout_ms as int)) as Nanos),
                    ..c
                },
                None,
            )
        },
    }
}

/// What comes of a command.
pub open spec fn dispatched(c: Control, cmd: CmdView, s: Situation) -> (Seq<Step>, Control, Option<
    Seq<char>,
>) {
    if s.locked && stopped_by_lock(cmd) {
        (seq![], c, Some("ok locked\n"@))
    } else {
        acted(c, cmd, s)
    }
}

/// The answer of an outcome.
pub open spec fn reply_of(o: Outcome) -> Option<Seq<char>> {
    match o.reply {
        Some(s) => Some(s@),
        None => None,
    }
}

fn steps1(a: Step) -> (v: Vec<Step>)
    ensures
        v@ == seq![a],
{
    let mut v: Vec<Step> = Vec::new();
    v.push(a);
    v
}

fn steps2(a: Step, b: Step) -> (v: Vec<Step>)
    ensures
        v@ == seq![a, b],
{
    let mut v: Vec<Step> = Vec::new();
    v.push(a);
    v.push(b);
    v
}

fn steps3(a: Step, b: Step, c: Step) -> (v: Vec<Step>)
    ensures
        v@ == seq![a, b, c],
{
    let mut v: Vec<Step> = Vec::new();
    v.push(a);
    v.push(b);
    v.push(c);
    v
}

fn ok_reply() -> (r: Option<String>)
    ensures
        r is Some,
        r->0@ == "ok\n"@,
{
    Some(copy("ok\n"))
}

/// What a tick of the loop knows of the shell.
#[derive(Clone, Copy, Debug)]
pub struct Tick {
    pub now: Nanos,
    /// The session is locked.
    pub locked: bool,
    /// The shell is at rest, the commands in flight aside (see [`idle`]).
    pub quiet: bool,
}

impl ActiveGesture {
    /// How many whole milliseconds of the swipe have passed.
    pub open spec fn passed(self, now: Nanos) -> int {
        elapsed(self.start, now) as int / 1_000_000
    }

    /// Whether the swipe has reached its end.
    pub open spec fn finished(self, now: Nanos) -> bool {
        self.passed(now) >= self.dur_ms
    }
}

impl Control {
    /// How many commands are in flight.
    pub open spec fn in_flight(self) -> int {
        (if self.active_gesture is Some {
            1int
        } else {
            0
        }) + (if self.active_key is Some {
            1int
        } else {
            0
        }) + (if self.active_touch is Some {
            1int
        } else {
            0
        }) + (if self.pending_settle is Some {
            1int
        } else {
            0
        })
    }

    /// What a tick does for the command in flight, the commands in flight then,
    /// and the answer if it came. A swipe goes before a key, a key before a
    /// touch, a touch before a settle.
    pub open spec fn carried_on(self, t: Tick) -> (Seq<Step>, Control, Option<Seq<char>>) {
        let ok = Some("ok\n"@);
        if self.active_gesture is Some {
            let g = self.active_gesture->0;
            let lifted = Control { active_gesture: None, ..self };
            let down: Seq<Step> = if g.started {
                seq![]
            } else {
                seq![Step::Motion(g.from.0, g.from.1), Step::Press]
            };
            let along = down + seq![Step::Glide(g.passed(t.now) as u128)];
            if t.locked {
                (seq![], lifted, Some("ok locked\n"@))
            } else if g.finished(t.now) {
                (along + seq![Step::Release], lifted, ok)
            } else {
                (
                    along,
                    Control { active_gesture: Some(ActiveGesture { started: true, ..g }), ..self },
                    None,
                )
            }
        } else if self.active_key is Some {
            let k = self.active_key->0;
            if t.now < k.release_at {
                (seq![], self, None)
            } else {
                (seq![Step::Key(k.keycode, false)], Control { active_key: None, ..self }, ok)
            }
        } else if self.active_touch is Some {
            if t.now < (self.active_touch->0).release_at {
                (seq![], self, None)
            } else {
                (
                    seq![Step::TouchUp, Step::TouchFrame],
                    Control { active_touch: None, ..self },
                    ok,
                )
            }
        } else if self.pending_settle is Some {
            if t.quiet {
                (seq![], Control { pending_settle: None, ..self }, ok)
            } else if t.now >= self.pending_settle->0 {
                (seq![], Control { pending_settle: None, ..self }, Some("err timeout\n"@))
            } else {
                (seq![], self, None)
            }
        } else {
            (seq![], self, None)
        }
    }

    /// Nothing in flight.
    pub fn new() -> (r: Self)
        ensures
            r.in_flight() == 0,
    {
        Control { active_gesture: None, active_key: None, active_touch: None, pending_settle: None }
    }

    /// Act on a command.
    ///
    /// Injected input counts as user activity; the queries and control verbs do
    /// not. The gesture verbs feed the shell directly, so the lock is honoured
    /// here; `touch` goes through the path that checks it, and `key` must keep
    /// working. A synthetic finger parks the mouse cursor as a real one does.
    pub fn dispatch(&mut self, cmd: &DebugCmd, s: &Situation) -> (r: Outcome)
        requires
            s.clock_in_range(),
        ensures
            r.activity == is_activity(cmd@),
            r.hide_cursor == (s.cursor_visible && is_contact(cmd@) && !s.locked),
            r.reply_first == (cmd@ is Quit),
            (r.steps@, *final(self), reply_of(r)) == dispatched(*old(self), cmd@, *s),
    {
        let activity: bool = !matches!(
            cmd,
            DebugCmd::Settle { .. } | DebugCmd::Reload | DebugCmd::Layers | DebugCmd::Quit
        );
        if s.locked && matches!(
            cmd,
            DebugCmd::Down(..)
                | DebugCmd::Move(..)
                | DebugCmd::Up
                | DebugCmd::Tap(..)
                | DebugCmd::Swipe { .. }
                | DebugCmd::Launch { .. }
        ) {
            return Outcome {
                activity,
                hide_cursor: false,
                steps: Vec::new(),
                reply: Some(copy("ok locked\n")),
                reply_first: false,
            };
        }
        let hide_cursor: bool = s.cursor_visible && matches!(
            cmd,
            DebugCmd::Down(..) | DebugCmd::Tap(..) | DebugCmd::Swipe { .. }
        );
        let reply_first: bool = matches!(cmd, DebugCmd::Quit);
        let (steps, reply): (Vec<Step>, Option<String>) = match cmd {
            DebugCmd::Down(x, y) => (steps2(Step::Motion(*x, *y), Step::Press), ok_reply()),
            DebugCmd::Move(x, y) => (steps1(Step::Motion(*x, *y)), ok_reply()),
            DebugCmd::Up => (steps1(Step::Release), ok_reply()),
            DebugCmd::Tap(x, y) => (
                steps3(Step::Motion(*x, *y), Step::Press, Step::Release),
                ok_reply(),
            ),
            DebugCmd::Swipe { from, to, dur_ms } => {
                self.active_gesture = Some(
                    ActiveGesture {
                        start: s.now,
                        dur_ms: *dur_ms,
                        from: *from,
                        to: *to,
                        started: false,
                    },
                );
                (Vec::new(), None)
            },
            DebugCmd::Key { name: _, hold_ms } => match s.key {
                KeyLookup::UnknownKeysym => (Vec::new(), Some(copy("err unknown-keysym\n"))),
                KeyLookup::Unmapped => (Vec::new(), Some(copy("err unmapped-keysym\n"))),
                KeyLookup::Code(keycode) => {
                    let release_at: Nanos = s.now + millis(*hold_ms as u64);
                    self.active_key = Some(ActiveKey { keycode, release_at });
                    (steps1(Step::Key(keycode, true)), None)
                },
            },
            DebugCmd::KeyHold { name: _, down } => match s.key {
                KeyLookup::UnknownKeysym => (Vec::new(), Some(copy("err unknown-keysym\n"))),
                KeyLookup::Unmapped => (Vec::new(), Some(copy("err unmapped-keysym\n"))),
                KeyLookup::Code(keycode) => (steps1(Step::Key(keycode, *down)), ok_reply()),
            },
            DebugCmd::Orientation(o) => (steps1(Step::Orientation(*o)), ok_reply()),
            DebugCmd::Touch(x, y) => {
                let release_at: Nanos = s.now + millis(TOUCH_HOLD_MS);
                self.active_touch = Some(ActiveTouch { release_at });
                (steps2(Step::TouchDown(*x, *y), Step::TouchFrame), None)
            },
            DebugCmd::Reload => (steps1(Step::Reload), ok_reply()),
            DebugCmd::Layers => (Vec::new(), Some(concat3("ok ", s.layers.as_str(), "\n"))),
            DebugCmd::Quit => (steps1(Step::Quit), ok_reply()),
            DebugCmd::Launch { app_id, new_window } => {
                if !s.known_app {
                    (Vec::new(), Some(concat3("err unknown app ", app_id.as_str(), "\n")))
                } else {
                    (steps2(Step::Open(*new_window), Step::Render), ok_reply())
                }
            },
            DebugCmd::Settle { timeout_ms } => {
                if s.idle {
                    (Vec::new(), ok_reply())
                } else {
                    let deadline: Nanos = s.now + millis(*timeout_ms as u64);
                    self.pending_settle = Some(deadline);
                    (Vec::new(), None)
                }
            },
        };
        Outcome { activity, hide_cursor, steps, reply, reply_first }
    }

    /// Carry on the swipe: put the finger down if it is not yet, move it along,
    /// and lift it at the end. A session that locked meanwhile ends it.
    fn advance_gesture(&mut self, t: &Tick) -> (r: Outcome)
        requires
            old(self).active_gesture is Some,
        ensures
            (r.steps@, *final(self), reply_of(r)) == old(self).carried_on(*t),
            !r.activity && !r.hide_cursor && !r.reply_first,
    {
        let g: ActiveGesture = match self.active_gesture {
            Some(g) => g,
            None => {
                return Outcome {
                    activity: false,
                    hide_cursor: false,
                    steps: Vec::new(),
                    reply: None,
                    reply_first: false,
                }
            },
        };
        if t.locked {
            self.active_gesture = None;
            return Outcome {
                activity: false,
                hide_cursor: false,
                steps: Vec::new(),
                reply: Some(copy("ok locked\n")),
                reply_first: false,
            };
        }
        let passed: u128 = since(g.start, t.now) / MILLI;
        let mut steps: Vec<Step> = Vec::new();
        if !g.started {
            steps.push(Step::Motion(g.from.0, g.from.1));
            steps.push(Step::Press);
        }
        steps.push(Step::Glide(passed));
        let reply: Option<String> = if passed >= g.dur_ms as u128 {
            steps.push(Step::Release);
            self.active_gesture = None;
            ok_reply()
        } else {
            self.active_gesture = Some(ActiveGesture { started: true, ..g });
            None
        };
        proof {
            let down: Seq<Step> = if g.started {
                seq![]
            } else {
                seq![Step::Motion(g.from.0, g.from.1), Step::Press]
            };
            let along = down + seq![Step::Glide(passed)];
            if g.finished(t.now) {
                assert(steps@ =~= along + seq![Step::Release]);
            } else {
                assert(steps@ =~= along);
            }
        }
        Outcome { activity: false, hide_cursor: false, steps, reply, reply_first: false }
    }

    /// Lift the touch once its time has come.
    fn advance_touch(&mut self, t: &Tick) -> (r: Outcome)
        requires
            old(self).active_gesture is None,
            old(self).active_key is None,
            old(self).active_touch is Some,
        ensures
            (r.steps@, *final(self), reply_of(r)) == old(self).carried_on(*t),
            !r.activity && !r.hide_cursor && !r.reply_first,
    {
        let (steps, reply): (Vec<Step>, Option<String>) = match self.active_touch {
            Some(touch) if t.now >= touch.release_at => {
                self.active_touch = None;
                (steps2(Step::TouchUp, Step::TouchFrame), ok_reply())
            },
            _ => (Vec::new(), None),
        };
        Outcome { activity: false, hide_cursor: false, steps, reply, reply_first: false }
    }

    /// Release the key once its time has come. Long presses fire from the
    /// normal poll while it is still held, as they do for a real key.
    fn advance_key(&mut self, t: &Tick) -> (r: Outcome)
        requires
            old(self).active_gesture is None,
            old(self).active_key is Some,
        ensures
            (r.steps@, *final(self), reply_of(r)) == old(self).carried_on(*t),
            !r.activity && !r.hide_cursor && !r.reply_first,
    {
        let (steps, reply): (Vec<Step>, Option<String>) = match self.active_key {
            Some(key) if t.now >= key.release_at => {
                self.active_key = None;
                (steps1(Step::Key(key.keycode, false)), ok_reply())
            },
            _ => (Vec::new(), None),
        };
        Outcome { activity: false, hide_cursor: false, steps, reply, reply_first: false }
    }

    /// Answer the settle once the shell is at rest, or once it is too late.
    fn check_settle(&mut self, t: &Tick) -> (r: Outcome)
        requires
            old(self).active_gesture is None,
            old(self).active_key is None,
            old(self).active_touch is None,
            old(self).pending_settle is Some,
        ensures
            (r.steps@, *final(self), reply_of(r)) == old(self).carried_on(*t),
            !r.activity && !r.hide_cursor && !r.reply_first,
    {
        let reply: Option<String> = if t.quiet {
            self.pending_settle = None;
            ok_reply()
        } else {
            match self.pending_settle {
                Some(deadline) if t.now >= deadline => {
                    self.pending_settle = None;
                    Some(copy("err timeout\n"))
                },
                _ => None,
            }
        };
        Outcome { activity: false, hide_cursor: false, steps: Vec::new(), reply, reply_first: false }
    }

    /// Carry on the command in flight. Called once per tick, before rendering;
    /// `None` means that nothing is in flight and a new command may be taken.
    pub fn drain(&mut self, t: &Tick) -> (r: Option<Outcome>)
        ensures
            r is None <==> old(self).in_flight() == 0,
            match r {
                Some(o) => (o.steps@, *final(self), reply_of(o)) == old(self).carried_on(*t)
                    && !o.activity && !o.hide_cursor && !o.reply_first,
                None => *final(self) == *old(self),
            },
    {
        if self.active_gesture.is_some() {
            return Some(self.advance_gesture(t));
        }
        if self.active_key.is_some() {
            return Some(self.advance_key(t));
        }
        if self.active_touch.is_some() {
            return Some(self.advance_touch(t));
        }
        if self.pending_settle.is_some() {
            return Some(self.check_settle(t));
        }
        None
    }
}

/// A command that is taken while nothing is in flight is answered at once, or
/// it is then the one command in flight.
pub proof fn law_a_command_is_answered_or_in_flight(c: Control, cmd: CmdView, s: Situation)
    requires
        c.in_flight() == 0,
    ensures
        ({
            let (_, next, reply) = dispatched(c, cmd, s);
            &&& reply is Some ==> next.in_flight() == 0
            &&& reply is None ==> next.in_flight() == 1
        }),
{
}

/// The command in flight is answered once, and the answer frees its slot.
pub proof fn law_the_answer_frees_the_slot(c: Control, t: Tick)
    requires
        c.in_flight() == 1,
    ensures
        ({
            let (_, next, reply) = c.carried_on(t);
            &&& reply is Some ==> next.in_flight() == 0
            &&& reply is None ==> next.in_flight() == 1
        }),
{
}

/// Every command in flight is answered: by the first tick at which its time is
/// up.
pub proof fn law_commands_in_flight_end(c: Control, t: Tick)
    requires
        c.in_flight() == 1,
        c.active_gesture is Some ==> elapsed((c.active_gesture->0).start, t.now) >= from_millis(
            (c.active_gesture->0).dur_ms as int,
        ),
        c.active_key is Some ==> t.now >= (c.active_key->0).release_at,
        c.active_touch is Some ==> t.now >= (c.active_touch->0).release_at,
        c.pending_settle is Some ==> t.now >= c.pending_settle->0,
    ensures
        c.carried_on(t).2 is Some,
{
    if c.active_gesture is Some {
        let g = c.active_gesture->0;
        let past = elapsed(g.start, t.now) as int;
        assert(past / 1_000_000 >= g.dur_ms) by (nonlinear_arith)
            requires
                past >= g.dur_ms * 1_000_000,
        ;
    }
}

/// No gesture verb drives the shell of a locked session: it takes no step, and
/// a swipe that is under way takes none from then on.
pub proof fn law_locked_session_takes_no_gesture(c: Control, cmd: CmdView, s: Situation, t: Tick)
    requires
        s.locked,
        t.locked,
        stopped_by_lock(cmd),
    ensures
        dispatched(c, cmd, s) == (Seq::<Step>::empty(), c, Some("ok locked\n"@)),
        c.active_gesture is Some ==> c.carried_on(t).0.len() == 0 && c.carried_on(
            t,
        ).1.active_gesture is None,
{
}

/// The finger of a swipe goes down once, before it moves, and comes up once, at
/// the end.
pub proof fn law_a_swipe_presses_once(c: Control, t: Tick, later: Tick)
    requires
        c.active_gesture is Some,
        !(c.active_gesture->0).started,
        !t.locked,
        !later.locked,
    ensures
        ({
            let (first, next, _) = c.carried_on(t);
            let (second, _, _) = next.carried_on(later);
            &&& first[1] == Step::Press
            &&& next.active_gesture is Some ==> !second.contains(Step::Press)
            &&& next.active_gesture is Some ==> !first.contains(Step::Release)
        }),
{
}

// ---------------------------------------------------------------------------
// At rest
// ---------------------------------------------------------------------------

/// The shell is at rest when no spring moves, no synthetic gesture is in
/// flight, and no pointer is held down.
pub fn is_idle(needs_animation: bool, gesture_active: bool, pointer_down: bool) -> (r: bool)
    ensures
        r == (!needs_animation && !gesture_active && !pointer_down),
{
    !needs_animation && !gesture_active && !pointer_down
}

/// What still moves in the shell.
#[derive(Clone, Copy, Debug)]
pub struct Motion {
    /// The UI state animates.
    pub ui: bool,
    /// Every spring of the icon grid has settled.
    pub grid_settled: bool,
    /// A turn waits out its debounce.
    pub turn_pending: bool,
    /// The fade that covers a turn is in flight.
    pub fading: bool,
    /// A finger is down.
    pub pointer_down: bool,
}

/// Whether the shell is at rest. A turn that waits, or the fade that covers
/// one, counts as movement: a picture taken then is black, or shows the old
/// orientation.
pub fn idle(c: &Control, m: &Motion) -> (r: bool)
    ensures
        r == (!m.ui && m.grid_settled && !m.turn_pending && !m.fading && !m.pointer_down
            && c.active_gesture is None && c.active_key is None && c.active_touch is None),
{
    is_idle(
        m.ui || !m.grid_settled || m.turn_pending || m.fading,
        c.active_gesture.is_some() || c.active_key.is_some() || c.active_touch.is_some(),
        m.pointer_down,
    )
}

/// No two verbs are written alike.
proof fn lemma_verbs_differ()
    ensures
        "down"@ != "move"@,
        "down"@ != "tap"@,
        "down"@ != "touch"@,
        "down"@ != "orientation"@,
        "down"@ != "up"@,
        "down"@ != "reload"@,
        "down"@ != "layers"@,
        "down"@ != "quit"@,
        "down"@ != "swipe"@,
        "down"@ != "key"@,
        "down"@ != "keydown"@,
        "down"@ != "keyup"@,
        "down"@ != "settle"@,
        "down"@ != "launch"@,
        "move"@ != "tap"@,
        "move"@ != "touch"@,
        "move"@ != "orientation"@,
        "move"@ != "up"@,
        "move"@ != "reload"@,
        "move"@ != "layers"@,
        "move"@ != "quit"@,
        "move"@ != "swipe"@,
        "move"@ != "key"@,
        "move"@ != "keydown"@,
        "move"@ != "keyup"@,
        "move"@ != "settle"@,
        "move"@ != "launch"@,
        "tap"@ != "touch"@,
        "tap"@ != "orientation"@,
        "tap"@ != "up"@,
        "tap"@ != "reload"@,
        "tap"@ != "layers"@,
        "tap"@ != "quit"@,
        "tap"@ != "swipe"@,
        "tap"@ != "key"@,
        "tap"@ != "keydown"@,
        "tap"@ != "keyup"@,
        "tap"@ != "settle"@,
        "tap"@ != "launch"@,
        "touch"@ != "orientation"@,
        "touch"@ != "up"@,
        "touch"@ != "reload"@,
        "touch"@ != "layers"@,
        "touch"@ != "quit"@,
        "touch"@ != "swipe"@,
        "touch"@ != "key"@,
        "touch"@ != "keydown"@,
        "touch"@ != "keyup"@,
        "touch"@ != "settle"@,
        "touch"@ != "launch"@,
        "orientation"@ != "up"@,
        "orientation"@ != "reload"@,
        "orientation"@ != "layers"@,
        "orientation"@ != "quit"@,
        "orientation"@ != "swipe"@,
        "orientation"@ != "key"@,
        "orientation"@ != "keydown"@,
        "orientation"@ != "keyup"@,
        "orientation"@ != "settle"@,
        "orientation"@ != "launch"@,
        "up"@ != "reload"@,
        "up"@ != "layers"@,
        "up"@ != "quit"@,
        "up"@ != "swipe"@,
        "up"@ != "key"@,
        "up"@ != "keydown"@,
        "up"@ != "keyup"@,
        "up"@ != "settle"@,
        "up"@ != "launch"@,
        "reload"@ != "layers"@,
        "reload"@ != "quit"@,
        "reload"@ != "swipe"@,
        "reload"@ != "key"@,
        "reload"@ != "keydown"@,
        "reload"@ != "keyup"@,
        "reload"@ != "settle"@,
        "reload"@ != "launch"@,
        "layers"@ != "quit"@,
        "layers"@ != "swipe"@,
        "layers"@ != "key"@,
        "layers"@ != "keydown"@,
        "layers"@ != "keyup"@,
        "layers"@ != "settle"@,
        "layers"@ != "launch"@,
        "quit"@ != "swipe"@,
        "quit"@ != "key"@,
        "quit"@ != "keydown"@,
        "quit"@ != "keyup"@,
        "quit"@ != "settle"@,
        "quit"@ != "launch"@,
        "swipe"@ != "key"@,
        "swipe"@ != "keydown"@,
        "swipe"@ != "keyup"@,
        "swipe"@ != "settle"@,
        "swipe"@ != "launch"@,
        "key"@ != "keydown"@,
        "key"@ != "keyup"@,
        "key"@ != "settle"@,
        "key"@ != "launch"@,
        "keydown"@ != "keyup"@,
        "keydown"@ != "settle"@,
        "keydown"@ != "launch"@,
        "keyup"@ != "settle"@,
        "keyup"@ != "launch"@,
        "settle"@ != "launch"@,
{
    reveal_strlit("down");
    reveal_strlit("move");
    reveal_strlit("tap");
    reveal_strlit("touch");
    reveal_strlit("orientation");
    reveal_strlit("up");
    reveal_strlit("reload");
    reveal_strlit("layers");
    reveal_strlit("quit");
    reveal_strlit("swipe");
    reveal_strlit("key");
    reveal_strlit("keydown");
    reveal_strlit("keyup");
    reveal_strlit("settle");
    reveal_strlit("launch");
    reveal_strlit("new");
    reveal_strlit("undefined");
    assert("down"@.len() == 4);
    assert("move"@.len() == 4);
    assert("tap"@.len() == 3);
    assert("touch"@.len() == 5);
    assert("orientation"@.len() == 11);
    assert("up"@.len() == 2);
    assert("reload"@.len() == 6);
    assert("layers"@.len() == 6);
    assert("quit"@.len() == 4);
    assert("swipe"@.len() == 5);
    assert("key"@.len() == 3);
    assert("keydown"@.len() == 7);
    assert("keyup"@.len() == 5);
    assert("settle"@.len() == 6);
    assert("launch"@.len() == 6);
    assert("new"@.len() == 3);
    assert("undefined"@.len() == 9);
    assert("down"@[0] == 'd' && "move"@[0] == 'm');
    assert("down"@[0] == 'd' && "quit"@[0] == 'q');
    assert("move"@[0] == 'm' && "quit"@[0] == 'q');
    assert("tap"@[0] == 't' && "key"@[0] == 'k');
    assert("touch"@[0] == 't' && "swipe"@[0] == 's');
    assert("touch"@[0] == 't' && "keyup"@[0] == 'k');
    assert("swipe"@[0] == 's' && "keyup"@[0] == 'k');
    assert("reload"@[0] == 'r' && "layers"@[0] == 'l');
    assert("reload"@[0] == 'r' && "settle"@[0] == 's');
    assert("reload"@[0] == 'r' && "launch"@[0] == 'l');
    assert("layers"@[0] == 'l' && "settle"@[0] == 's');
    assert("layers"@[2] == 'y' && "launch"@[2] == 'u');
    assert("settle"@[0] == 's' && "launch"@[0] == 'l');
}

/// A point lies on the output if neither coordinate is negative and neither goes
/// beyond the edge. A coordinate that is not a number lies nowhere. Patterns
/// without a sign are ordered as the numbers are.
pub proof fn law_point_lies_between_the_edges(x: Coord, y: Coord, w: Coord, h: Coord, r: bool)
    requires
        call_ensures(on_output, (x, y, w, h), r),
        w <= 0x7f80_0000,
        h <= 0x7f80_0000,
    ensures
        x <= 0x7f80_0000 && y <= 0x7f80_0000 ==> (r <==> x <= w && y <= h),
        x > 0x8000_0000 || y > 0x8000_0000 ==> !r,
        0x7f80_0000 < x < 0x8000_0000 || 0x7f80_0000 < y < 0x8000_0000 ==> !r,
        x == 0x8000_0000 && y <= 0x7f80_0000 ==> (r <==> y <= h),
        y == 0x8000_0000 && x <= 0x7f80_0000 ==> (r <==> x <= w),
{
}

/// A verb that takes a point gives its own command, with the point as it was
/// written: first how far to the right, then how far down. A point off the output
/// is out of range.
pub proof fn law_point_verbs_give_their_command(
    t: Vec<Token>,
    w: Coord,
    h: Coord,
    r: Result<DebugCmd, String>,
    x: Coord,
    y: Coord,
    on: bool,
)
    requires
        call_ensures(parse_tokens, (&t, w, h), r),
        call_ensures(on_output, (x, y, w, h), on),
        t@.len() == 3,
        t@[1].number == Some(x),
        t@[2].number == Some(y),
    ensures
        on && t@[0].text@ == "down"@ ==> r is Ok && r->Ok_0@ == CmdView::Down(x, y),
        on && t@[0].text@ == "move"@ ==> r is Ok && r->Ok_0@ == CmdView::Move(x, y),
        on && t@[0].text@ == "tap"@ ==> r is Ok && r->Ok_0@ == CmdView::Tap(x, y),
        on && t@[0].text@ == "touch"@ ==> r is Ok && r->Ok_0@ == CmdView::Touch(x, y),
        !on && (t@[0].text@ == "down"@ || t@[0].text@ == "move"@ || t@[0].text@ == "tap"@ || t@[0].text@
            == "touch"@) ==> r is Err && r->Err_0@ == "range"@,
{
    lemma_verbs_differ();
    let v = token_views(t@);
    assert(v[0] == token_view(t@[0]));
    assert(v[1] == token_view(t@[1]));
    assert(v[2] == token_view(t@[2]));
}

/// A verb without arguments gives its own command, and none with one.
pub proof fn law_bare_verbs_give_their_command(t: Vec<Token>, w: Coord, h: Coord, r: Result<DebugCmd, String>)
    requires
        call_ensures(parse_tokens, (&t, w, h), r),
        t@.len() > 0,
    ensures
        t@[0].text@ == "up"@ ==> (r is Ok <==> t@.len() == 1) && (r is Ok ==> r->Ok_0@ == CmdView::Up),
        t@[0].text@ == "reload"@ ==> (r is Ok <==> t@.len() == 1) && (r is Ok ==> r->Ok_0@
            == CmdView::Reload),
        t@[0].text@ == "layers"@ ==> (r is Ok <==> t@.len() == 1) && (r is Ok ==> r->Ok_0@
            == CmdView::Layers),
        t@[0].text@ == "quit"@ ==> (r is Ok <==> t@.len() == 1) && (r is Ok ==> r->Ok_0@ == CmdView::Quit),
{
    lemma_verbs_differ();
    assert(token_views(t@)[0] == token_view(t@[0]));
}

/// A swipe goes from the first point to the second, in the milliseconds that
/// follow or in two tenths of a second; both points lie on the output.
pub proof fn law_swipe_goes_from_first_to_second(
    t: Vec<Token>,
    w: Coord,
    h: Coord,
    r: Result<DebugCmd, String>,
    a: (Coord, Coord),
    b: (Coord, Coord),
    from_on: bool,
    to_on: bool,
)
    requires
        call_ensures(parse_tokens, (&t, w, h), r),
        call_ensures(on_output, (a.0, a.1, w, h), from_on),
        call_ensures(on_output, (b.0, b.1, w, h), to_on),
        5 <= t@.len() <= 6,
        t@[0].text@ == "swipe"@,
        t@[1].number == Some(a.0),
        t@[2].number == Some(a.1),
        t@[3].number == Some(b.0),
        t@[4].number == Some(b.1),
        t@.len() == 6 ==> written_within(t@[5].text@, 0, u32::MAX as int) is Some,
    ensures
        r is Ok <==> from_on && to_on,
        r is Ok ==> r->Ok_0@ is Swipe && r->Ok_0@->from == a && r->Ok_0@->to == b,
        r is Ok && t@.len() == 5 ==> r->Ok_0@->dur_ms == 200,
        r is Ok && t@.len() == 6 ==> written_within(t@[5].text@, 0, u32::MAX as int) == Some(
            r->Ok_0@->dur_ms as int,
        ),
{
    lemma_verbs_differ();
    let v = token_views(t@);
    assert(v[0] == token_view(t@[0]));
    assert(v[1] == token_view(t@[1]));
    assert(v[2] == token_view(t@[2]));
    assert(v[3] == token_view(t@[3]));
    assert(v[4] == token_view(t@[4]));
    if t@.len() == 6 {
        assert(v[5] == token_view(t@[5]));
    }
}

/// A key is pressed by its name, and comes up at once unless it says for how long
/// it is held; `keydown` and `keyup` do one half of that.
pub proof fn law_keys_are_named(t: Vec<Token>, w: Coord, h: Coord, r: Result<DebugCmd, String>)
    requires
        call_ensures(parse_tokens, (&t, w, h), r),
        2 <= t@.len() <= 3,
        t@.len() == 3 ==> written_within(t@[2].text@, 0, u32::MAX as int) is Some,
    ensures
        t@[0].text@ == "key"@ ==> r is Ok && r->Ok_0@ is Key && r->Ok_0@->Key_name == t@[1].text@ && (
        t@.len() == 2 ==> r->Ok_0@->hold_ms == 0) && (t@.len() == 3 ==> written_within(
            t@[2].text@,
            0,
            u32::MAX as int,
        ) == Some(r->Ok_0@->hold_ms as int)),
        t@[0].text@ == "keydown"@ ==> (r is Ok <==> t@.len() == 2) && (r is Ok ==> r->Ok_0@ is KeyHold
            && r->Ok_0@->KeyHold_name == t@[1].text@ && r->Ok_0@->down),
        t@[0].text@ == "keyup"@ ==> (r is Ok <==> t@.len() == 2) && (r is Ok ==> r->Ok_0@ is KeyHold
            && r->Ok_0@->KeyHold_name == t@[1].text@ && !r->Ok_0@->down),
{
    lemma_verbs_differ();
    let v = token_views(t@);
    assert(v[0] == token_view(t@[0]));
    assert(v[1] == token_view(t@[1]));
    if t@.len() == 3 {
        assert(v[2] == token_view(t@[2]));
    }
}

/// A settle waits for the milliseconds that it gives, or for two seconds.
pub proof fn law_settle_waits_two_seconds(t: Vec<Token>, w: Coord, h: Coord, r: Result<DebugCmd, String>)
    requires
        call_ensures(parse_tokens, (&t, w, h), r),
        1 <= t@.len() <= 2,
        t@[0].text@ == "settle"@,
        t@.len() == 2 ==> written_within(t@[1].text@, 0, u32::MAX as int) is Some,
    ensures
        r is Ok && r->Ok_0@ is Settle,
        t@.len() == 1 ==> r->Ok_0@->timeout_ms == 2000,
        t@.len() == 2 ==> written_within(t@[1].text@, 0, u32::MAX as int) == Some(
            r->Ok_0@->timeout_ms as int,
        ),
{
    lemma_verbs_differ();
    let v = token_views(t@);
    assert(v[0] == token_view(t@[0]));
    if t@.len() == 2 {
        assert(v[1] == token_view(t@[1]));
    }
}

/// An app is opened by its id, in a window of its own exactly if `new` follows.
pub proof fn law_apps_are_opened_by_id(t: Vec<Token>, w: Coord, h: Coord, r: Result<DebugCmd, String>)
    requires
        call_ensures(parse_tokens, (&t, w, h), r),
        2 <= t@.len() <= 3,
        t@[0].text@ == "launch"@,
    ensures
        r is Ok <==> t@.len() == 2 || t@[2].text@ == "new"@,
        r is Ok ==> r->Ok_0@ is Launch && r->Ok_0@->app_id == t@[1].text@ && (r->Ok_0@->new_window
            <==> t@.len() == 3),
{
    lemma_verbs_differ();
    let v = token_views(t@);
    assert(v[0] == token_view(t@[0]));
    assert(v[1] == token_view(t@[1]));
    if t@.len() == 3 {
        assert(v[2] == token_view(t@[2]));
    }
}

/// The device is turned as the sensor would say, and by no other name.
pub proof fn law_turns_are_named_as_by_the_sensor(
    t: Vec<Token>,
    w: Coord,
    h: Coord,
    r: Result<DebugCmd, String>,
    name: &str,
    o: DeviceOrientation,
)
    requires
        call_ensures(parse_tokens, (&t, w, h), r),
        call_ensures(DeviceOrientation::from_sensor, (name,), o),
        t@.len() == 2,
        t@[0].text@ == "orientation"@,
        t@[1].text@ == name@,
    ensures
        r is Ok <==> o != DeviceOrientation::Undefined || name@ == "undefined"@,
        r is Ok ==> r->Ok_0@ == CmdView::Orientation(o),
{
    lemma_verbs_differ();
    let v = token_views(t@);
    assert(v[0] == token_view(t@[0]));
    assert(v[1] == token_view(t@[1]));
}

/// A line without a verb, or with one that there is none of, is refused.
pub proof fn law_other_verbs_are_refused(t: Vec<Token>, w: Coord, h: Coord, r: Result<DebugCmd, String>)
    requires
        call_ensures(parse_tokens, (&t, w, h), r),
        t@.len() > 0 ==> {
            let verb = t@[0].text@;
            verb != "down"@ && verb != "move"@ && verb != "tap"@ && verb != "touch"@ && verb
                != "orientation"@ && verb != "up"@ && verb != "reload"@ && verb != "layers"@ && verb
                != "quit"@ && verb != "swipe"@ && verb != "key"@ && verb != "keydown"@ && verb != "keyup"@
                && verb != "settle"@ && verb != "launch"@
        },
    ensures
        r is Err,
        t@.len() == 0 ==> r->Err_0@ == "parse: empty"@,
        t@.len() > 0 ==> r->Err_0@ == "parse: unknown verb "@ + t@[0].text@,
{
    if t@.len() > 0 {
        assert(token_views(t@)[0] == token_view(t@[0]));
    }
}

/// A finger goes where the command says before it goes down, comes up after it
/// went down, and a tap does both.
pub proof fn law_finger_moves_before_it_presses(
    c: &mut Control,
    cmd: DebugCmd,
    s: Situation,
    r: Outcome,
    x: Coord,
    y: Coord,
)
    requires
        call_ensures(Control::dispatch, (c, &cmd, &s), r),
        !s.locked,
    ensures
        cmd == DebugCmd::Down(x, y) ==> r.steps@ == seq![Step::Motion(x, y), Step::Press],
        cmd == DebugCmd::Move(x, y) ==> r.steps@ == seq![Step::Motion(x, y)],
        cmd == DebugCmd::Up ==> r.steps@ == seq![Step::Release],
        cmd == DebugCmd::Tap(x, y) ==> r.steps@ == seq![Step::Motion(x, y), Step::Press, Step::Release],
        cmd == DebugCmd::Touch(x, y) ==> r.steps@ == seq![Step::TouchDown(x, y), Step::TouchFrame],
        r.hide_cursor <==> s.cursor_visible && (cmd is Down || cmd is Tap || cmd is Swipe),
{
}

/// What takes time waits for its time: a swipe for its duration, a key for as
/// long as it is held, a touch for twelve hundredths of a second, a settle for
/// its timeout.
pub proof fn law_slow_commands_wait_for_their_time(c: &mut Control, cmd: DebugCmd, s: Situation, r: Outcome)
    requires
        call_ensures(Control::dispatch, (c, &cmd, &s), r),
        !s.locked,
        s.clock_in_range(),
        old(c).in_flight() == 0,
    ensures
        final(c).active_gesture is Some <==> cmd is Swipe,
        cmd is Swipe ==> final(c).active_gesture->0.start == s.now && final(c).active_gesture->0.dur_ms
            == cmd@->dur_ms && final(c).active_gesture->0.from == cmd@->from && final(c).active_gesture->0.to == cmd@->to && !final(c).active_gesture->0.started,
        final(c).active_key is Some <==> cmd is Key && s.key is Code,
        final(c).active_key is Some ==> final(c).active_key->0.keycode == s.key->Code_0 && final(c).active_key->0.release_at - s.now == cmd@->hold_ms * 1_000_000,
        final(c).active_touch is Some <==> cmd is Touch,
        final(c).active_touch is Some ==> final(c).active_touch->0.release_at - s.now == 120_000_000,
        final(c).pending_settle is Some <==> cmd is Settle && !s.idle,
        final(c).pending_settle is Some ==> final(c).pending_settle->0 - s.now == cmd@->timeout_ms
            * 1_000_000,
        r.reply is None <==> final(c).in_flight() == 1,
{
}

/// A key goes down for a press, and the way it is asked for a hold; one that
/// there is none of is told of.
pub proof fn law_key_goes_the_way_it_is_asked(c: &mut Control, cmd: DebugCmd, s: Situation, r: Outcome, code: u32)
    requires
        call_ensures(Control::dispatch, (c, &cmd, &s), r),
        cmd is Key || cmd is KeyHold,
    ensures
        r.steps@.contains(Step::Key(code, true)) <==> s.key == KeyLookup::Code(code) && (cmd is Key
            || cmd->down),
        r.steps@.contains(Step::Key(code, false)) <==> s.key == KeyLookup::Code(code) && cmd is KeyHold
            && !cmd->down,
        s.key == KeyLookup::UnknownKeysym ==> reply_of(r) == Some("err unknown-keysym\n"@),
        s.key == KeyLookup::Unmapped ==> reply_of(r) == Some("err unmapped-keysym\n"@),
        cmd is KeyHold && s.key is Code ==> reply_of(r) == Some("ok\n"@),
{
    if s.key is Code {
        assert(r.steps@[0] == Step::Key(s.key->Code_0, cmd is Key || cmd->down));
    }
}

/// An app that there is is opened, in the way that was asked, and a frame is
/// drawn; one that there is none of is named in the answer.
pub proof fn law_only_known_apps_are_opened(c: &mut Control, cmd: DebugCmd, s: Situation, r: Outcome)
    requires
        call_ensures(Control::dispatch, (c, &cmd, &s), r),
        cmd is Launch,
        !s.locked,
    ensures
        s.known_app ==> r.steps@ == seq![Step::Open(cmd->new_window), Step::Render] && reply_of(r) == Some(
            "ok\n"@,
        ),
        !s.known_app ==> r.steps@.len() == 0 && reply_of(r) == Some(
            "err unknown app "@ + cmd@->app_id + "\n"@,
        ),
{
}

/// The control verbs do what they are called and are answered at once. Nothing
/// answers after the end, so that answer goes out first; and none of them counts
/// as the user's.
pub proof fn law_control_verbs_do_what_they_are_called(
    c: &mut Control,
    cmd: DebugCmd,
    s: Situation,
    r: Outcome,
    o: DeviceOrientation,
)
    requires
        call_ensures(Control::dispatch, (c, &cmd, &s), r),
    ensures
        cmd == DebugCmd::Reload ==> r.steps@ == seq![Step::Reload] && reply_of(r) == Some("ok\n"@),
        cmd == DebugCmd::Quit ==> r.steps@ == seq![Step::Quit] && reply_of(r) == Some("ok\n"@),
        cmd == DebugCmd::Layers ==> r.steps@.len() == 0 && reply_of(r) == Some("ok "@ + s.layers@ + "\n"@),
        cmd == DebugCmd::Orientation(o) ==> r.steps@ == seq![Step::Orientation(o)],
        r.reply_first <==> cmd == DebugCmd::Quit,
        r.activity <==> !(cmd is Settle || cmd is Reload || cmd is Layers || cmd is Quit),
        cmd is Settle && s.idle ==> reply_of(r) == Some("ok\n"@) && *final(c) == *old(c),
{
}

/// A locked session stops the finger and the launches, and nothing else.
pub proof fn law_lock_stops_the_finger(c: &mut Control, cmd: DebugCmd, s: Situation, r: Outcome)
    requires
        call_ensures(Control::dispatch, (c, &cmd, &s), r),
        s.locked,
    ensures
        cmd is Down || cmd is Move || cmd is Up || cmd is Tap || cmd is Swipe || cmd is Launch ==> r.steps@.len()
            == 0 && reply_of(r) == Some("ok locked\n"@) && *final(c) == *old(c),
        cmd is Key && s.key is Code ==> r.steps@.len() == 1 && reply_of(r) is None,
        cmd is Touch ==> r.steps@.len() == 2,
        !r.hide_cursor,
{
}

/// A swipe presses before it glides, glides by the whole milliseconds that have
/// passed, and lets go once its duration has passed; a lock ends it.
pub proof fn law_swipe_lets_go_at_its_end(c: &mut Control, t: Tick, r: Option<Outcome>, g: ActiveGesture)
    requires
        call_ensures(Control::drain, (c, &t), r),
        old(c).active_gesture == Some(g),
        t.now >= g.start,
    ensures
        r is Some,
        t.locked ==> r->0.steps@.len() == 0 && reply_of(r->0) == Some("ok locked\n"@) && final(c).active_gesture is None,
        !t.locked && !g.started ==> r->0.steps@[0] == Step::Motion(g.from.0, g.from.1) && r->0.steps@[1]
            == Step::Press && r->0.steps@[2] == Step::Glide((t.now - g.start) as u128 / 1_000_000),
        !t.locked && g.started ==> r->0.steps@[0] == Step::Glide((t.now - g.start) as u128 / 1_000_000)
            && !r->0.steps@.contains(Step::Press),
        !t.locked ==> (r->0.steps@.last() == Step::Release <==> (t.now - g.start) / 1_000_000 >= g.dur_ms),
        !t.locked && (t.now - g.start) / 1_000_000 >= g.dur_ms ==> final(c).active_gesture is None
            && reply_of(r->0) == Some("ok\n"@),
        !t.locked && (t.now - g.start) / 1_000_000 < g.dur_ms ==> final(c).active_gesture is Some && final(c).active_gesture->0.started && reply_of(r->0) is None,
{
}

/// A held key or touch comes up once its time has come, and is answered then; a
/// settle is answered once the shell rests, and fails once it is too late.
pub proof fn law_held_things_come_up(c: &mut Control, t: Tick, r: Option<Outcome>)
    requires
        call_ensures(Control::drain, (c, &t), r),
        old(c).active_gesture is None,
        old(c).in_flight() == 1,
    ensures
        r is Some,
        old(c).active_key is Some ==> (if t.now >= old(c).active_key->0.release_at {
            r->0.steps@ == seq![Step::Key(old(c).active_key->0.keycode, false)] && final(c).active_key is None
                && reply_of(r->0) == Some("ok\n"@)
        } else {
            r->0.steps@.len() == 0 && *final(c) == *old(c) && reply_of(r->0) is None
        }),
        old(c).active_touch is Some ==> (if t.now >= old(c).active_touch->0.release_at {
            r->0.steps@ == seq![Step::TouchUp, Step::TouchFrame] && final(c).active_touch is None && reply_of(
                r->0,
            ) == Some("ok\n"@)
        } else {
            r->0.steps@.len() == 0 && *final(c) == *old(c) && reply_of(r->0) is None
        }),
        old(c).pending_settle is Some ==> r->0.steps@.len() == 0 && (reply_of(r->0) == Some("ok\n"@)
            <==> t.quiet) && (reply_of(r->0) == Some("err timeout\n"@) <==> !t.quiet && t.now >= old(c).pending_settle->0) && (final(c).pending_settle is None <==> reply_of(r->0) is Some),
{
    reveal_strlit("ok\n");
    reveal_strlit("err timeout\n");
    assert("ok\n"@.len() == 3);
    assert("err timeout\n"@.len() == 12);
}

/// An error is told in one line.
pub proof fn law_refusal_is_one_line(e: &str, r: String)
    requires
        call_ensures(refusal, (e,), r),
    ensures
        r@ == "err "@ + e@ + "\n"@,
{
}

/// The shell rests only while nothing moves and no finger, key or swipe is down.
pub proof fn law_rest_means_nothing_moves(c: Control, m: Motion, r: bool)
    requires
        call_ensures(idle, (&c, &m), r),
    ensures
        r ==> !m.ui && m.grid_settled && !m.turn_pending && !m.fading && !m.pointer_down,
        r ==> c.active_gesture is None && c.active_key is None && c.active_touch is None,
        !r ==> m.ui || !m.grid_settled || m.turn_pending || m.fading || m.pointer_down || c.active_gesture
            is Some || c.active_key is Some || c.active_touch is Some,
{
}

/// A line is read word by word: the verb is the first word, and the numbers are
/// what `number` makes of the words behind it.
pub proof fn law_line_is_read_word_by_word<F: Fn(&str) -> Option<Coord>>(
    line: &str,
    w: Coord,
    h: Coord,
    number: F,
    r: Result<DebugCmd, String>,
    x: Coord,
    y: Coord,
    on: bool,
)
    requires
        call_ensures(parse_line::<F>, (line, w, h, number), r),
        call_ensures(on_output, (x, y, w, h), on),
        on,
        words(line@).len() == 3,
        words(line@)[0] == "tap"@,
        forall|v: Option<Coord>| #[trigger] answers(number, words(line@)[1], v) ==> v == Some(x),
        forall|v: Option<Coord>| #[trigger] answers(number, words(line@)[2], v) ==> v == Some(y),
    ensures
        r is Ok,
        r->Ok_0@ == CmdView::Tap(x, y),
{
    lemma_verbs_differ();
    let t = choose|t: Seq<TokenView>|
        tokens_of(line@, number, t) && command_outcome(r) == command(t, w, h);
    assert(t[0].text == words(line@)[0]);
    assert(t[1].text == words(line@)[1] && t[1].number == Some(x));
    assert(t[2].text == words(line@)[2] && t[2].number == Some(y));
}

/// The shell is at rest just when nothing moves, no gesture is under way and no
/// finger is down.
pub proof fn law_rest_means_that_nothing_goes_on(moving: bool, gesture: bool, down: bool, r: bool)
    requires
        call_ensures(is_idle, (moving, gesture, down), r),
    ensures
        moving || gesture || down ==> !r,
        !moving && !gesture && !down ==> r,
{
}

} // verus!
