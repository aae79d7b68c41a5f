//! Key bindings: where they are configured, and what a bound key does.
use vstd::prelude::*;

use crate::blank::{Blank, KeyWhileBlanked};
use crate::catalog::{join_path, path_join};
use crate::text::{answers, copy, text_of, texts, total};

verus! {

// ---------------------------------------------------------------------------
// Configuration
// ---------------------------------------------------------------------------

/// Whether `v` is what the environment holds under `name`.
pub open spec fn env_holds<F: Fn(&str) -> Option<String>>(env: F, name: Seq<char>, v: Option<Seq<char>>) -> bool {
    exists|r: Option<String>| #[trigger] answers(env, name, r) && text_of(r) == v
}

/// The one file that is read, when the environment names it: without it, no
/// other is looked for.
pub fn env_override<F: Fn(&str) -> Option<String>>(env: F) -> (r: Option<String>)
    requires
        total(env),
    ensures
        env_holds(env, "SPRINGCHICK_CONFIG"@, text_of(r)),
{
    let r: Option<String> = env("SPRINGCHICK_CONFIG");
    proof {
        assert(answers(env, "SPRINGCHICK_CONFIG"@, r));
    }
    r
}

/// The file of the user, given the directory for configuration and the home
/// directory.
pub open spec fn user_config(xdg: Option<Seq<char>>, home: Option<Seq<char>>) -> Option<Seq<char>> {
    match xdg {
        Some(dir) => Some(path_join(dir, "springchick/config.toml"@)),
        None => match home {
            Some(dir) => Some(path_join(path_join(dir, ".config"@), "springchick/config.toml"@)),
            None => None,
        },
    }
}

/// The files that are looked for, in order: the user's, then the system's.
pub open spec fn config_candidates(xdg: Option<Seq<char>>, home: Option<Seq<char>>) -> Seq<Seq<char>> {
    match user_config(xdg, home) {
        Some(p) => seq![p, "/etc/springchick/config.toml"@],
        None => seq!["/etc/springchick/config.toml"@],
    }
}

/// The files that are looked for, in order. The home directory matters only
/// without a directory for configuration.
pub fn candidate_paths<F: Fn(&str) -> Option<String>>(env: F) -> (out: Vec<String>)
    requires
        total(env),
    ensures
        exists|xdg: Option<Seq<char>>, home: Option<Seq<char>>| #[trigger]
            env_holds(env, "XDG_CONFIG_HOME"@, xdg) && (xdg is None ==> #[trigger] env_holds(
                env,
                "HOME"@,
                home,
            )) && texts(out@) == config_candidates(xdg, home),
{
    let mut out: Vec<String> = Vec::new();
    let xdg: Option<String> = env("XDG_CONFIG_HOME");
    let ghost xdg_is = text_of(xdg);
    let ghost mut home_is: Option<Seq<char>> = None;
    proof {
        assert(answers(env, "XDG_CONFIG_HOME"@, xdg));
        assert(env_holds(env, "XDG_CONFIG_HOME"@, xdg_is));
    }
    match xdg {
        Some(dir) => {
            out.push(join_path(dir.as_str(), "springchick/config.toml"));
        },
        None => {
            let home: Option<String> = env("HOME");
            proof {
                home_is = text_of(home);
                assert(answers(env, "HOME"@, home));
                assert(env_holds(env, "HOME"@, home_is));
            }
            match home {
                Some(dir) => {
                    out.push(
                        join_path(join_path(dir.as_str(), ".config").as_str(), "springchick/config.toml"),
                    );
                },
                None => {},
            }
        },
    }
    out.push(copy("/etc/springchick/config.toml"));
    proof {
        assert(texts(out@) =~= config_candidates(xdg_is, home_is));
        let _ = env_holds(env, "HOME"@, home_is);
    }
    out
}

/// How an attempt to read a file ended.
#[derive(Debug)]
pub enum ReadFile {
    Text(String),
    Missing,
    Failed,
}

/// What is read from the configuration file.
#[derive(Debug)]
pub enum Loaded {
    /// The text of a file.
    Text(String),
    /// No file: the shipped bindings.
    Defaults,
}

/// What the first of the files that could be read holds. A missing file is
/// normal and an unreadable one is no reason to stop.
pub open spec fn first_text(reads: Seq<ReadFile>) -> Option<Seq<char>>
    decreases reads.len(),
{
    if reads.len() == 0 {
        None
    } else {
        match reads[0] {
            ReadFile::Text(t) => Some(t@),
            _ => first_text(reads.skip(1)),
        }
    }
}

/// What is loaded, given how reading each of the files ended.
pub fn load_config(reads: &Vec<ReadFile>) -> (r: Loaded)
    ensures
        match r {
            Loaded::Text(t) => first_text(reads@) == Some(t@),
            Loaded::Defaults => first_text(reads@) is None,
        },
{
    let mut i: usize = 0;
    proof {
        assert(reads@.skip(0) =~= reads@);
    }
    while i < reads.len()
        invariant
            i <= reads.len(),
            first_text(reads@.skip(i as int)) == first_text(reads@),
        decreases reads.len() - i,
    {
        proof {
            assert(reads@.skip(i as int)[0] == reads@[i as int]);
            assert(reads@.skip(i as int).skip(1) =~= reads@.skip(i + 1));
        }
        match &reads[i] {
            ReadFile::Text(t) => {
                return Loaded::Text(copy(t.as_str()));
            },
            _ => {},
        }
        i = i + 1;
    }
    Loaded::Defaults
}

// ---------------------------------------------------------------------------
// Bindings
// ---------------------------------------------------------------------------

/// The modifiers of a binding.
#[derive(Clone, Copy, Debug, PartialEq, Eq, Structural)]
pub struct ModMask {
    pub ctrl: bool,
    pub alt: bool,
    pub shift: bool,
    pub logo: bool,
}

/// The modifiers of the keyboard.
#[derive(Clone, Copy, Debug, PartialEq, Eq, Structural)]
pub struct ModifiersState {
    pub ctrl: bool,
    pub alt: bool,
    pub shift: bool,
    pub caps_lock: bool,
    pub logo: bool,
    pub num_lock: bool,
}

impl ModMask {
    /// No modifier.
    pub fn none() -> (r: Self)
        ensures
            r == (ModMask { ctrl: false, alt: false, shift: false, logo: false }),
    {
        ModMask { ctrl: false, alt: false, shift: false, logo: false }
    }
}

/// The modifiers of the keyboard as far as bindings go by them. A lock that is
/// on must not disable every binding.
pub fn mod_mask(mods: &ModifiersState) -> (r: ModMask)
    ensures
        r == (ModMask { ctrl: mods.ctrl, alt: mods.alt, shift: mods.shift, logo: mods.logo }),
{
    ModMask { ctrl: mods.ctrl, alt: mods.alt, shift: mods.shift, logo: mods.logo }
}

/// How long a key is held for a binding to fire.
#[derive(Clone, Copy, Debug, PartialEq, Eq, Structural)]
pub enum Press {
    Short,
    Long,
}

/// What a binding does.
#[derive(Debug)]
pub enum Action {
    Command(String),
    CloseApp,
    Home,
    ToggleDisplay,
    VolumeUp,
    VolumeDown,
    VolumeMute,
}

/// A binding as it is configured: the key goes by its name.
#[derive(Debug)]
pub struct ConfigBinding {
    pub key: String,
    pub mods: ModMask,
    pub press: Press,
    pub action: Action,
}

/// A binding whose key was found.
#[derive(Debug)]
pub struct Binding {
    pub keysym: u32,
    pub mods: ModMask,
    pub press: Press,
    pub action: Action,
}

/// What a binding becomes when its key was found to be `keysym`.
pub open spec fn bound(b: ConfigBinding, keysym: u32) -> Binding {
    Binding { keysym, mods: b.mods, press: b.press, action: b.action }
}

/// The bindings whose key was found, in order.
pub open spec fn resolved(bs: Seq<ConfigBinding>, syms: Seq<Option<u32>>) -> Seq<Binding>
    decreases bs.len(),
{
    if bs.len() == 0 || syms.len() == 0 {
        Seq::empty()
    } else {
        let rest = resolved(bs.skip(1), syms.skip(1));
        match syms[0] {
            Some(s) => seq![bound(bs[0], s)] + rest,
            None => rest,
        }
    }
}

/// Whether `syms` holds what `keysym_of` answered for each of the bindings.
pub open spec fn are_keysyms<F: Fn(&str) -> Option<u32>>(
    keysym_of: F,
    bs: Seq<ConfigBinding>,
    syms: Seq<Option<u32>>,
) -> bool {
    &&& syms.len() == bs.len()
    &&& forall|i: int| 0 <= i < bs.len() ==> answers(keysym_of, #[trigger] bs[i].key@, syms[i])
}

proof fn lemma_resolved_push(bs: Seq<ConfigBinding>, syms: Seq<Option<u32>>, b: ConfigBinding, s: Option<u32>)
    requires
        bs.len() == syms.len(),
    ensures
        resolved(bs.push(b), syms.push(s)) == resolved(bs, syms) + match s {
            Some(k) => seq![bound(b, k)],
            None => Seq::empty(),
        },
    decreases bs.len(),
{
    let last = match s {
        Some(k) => seq![bound(b, k)],
        None => Seq::empty(),
    };
    if bs.len() == 0 {
        assert(resolved(bs.push(b).skip(1), syms.push(s).skip(1)) =~= Seq::empty());
        assert(resolved(bs.push(b), syms.push(s)) =~= resolved(bs, syms) + last);
    } else {
        assert(bs.push(b).skip(1) =~= bs.skip(1).push(b));
        assert(syms.push(s).skip(1) =~= syms.skip(1).push(s));
        lemma_resolved_push(bs.skip(1), syms.skip(1), b, s);
        assert(resolved(bs.push(b), syms.push(s)) =~= resolved(bs, syms) + last);
    }
}

/// The bindings by key symbol. A name that the keyboard does not know is
/// dropped, and the rest still work.
pub fn resolve<F: Fn(&str) -> Option<u32>>(bindings: Vec<ConfigBinding>, keysym_of: F) -> (out: Vec<
    Binding,
>)
    requires
        total(keysym_of),
    ensures
        exists|syms: Seq<Option<u32>>| #[trigger]
            are_keysyms(keysym_of, bindings@, syms) && out@ == resolved(bindings@, syms),
{
    let ghost all = bindings@;
    let mut out: Vec<Binding> = Vec::new();
    let ghost mut syms: Seq<Option<u32>> = Seq::empty();
    let mut left: Vec<ConfigBinding> = bindings;
    let ghost mut taken: int = 0;
    while left.len() > 0
        invariant
            0 <= taken <= all.len(),
            left@ == all.skip(taken),
            syms.len() == taken,
            total(keysym_of),
            forall|i: int| 0 <= i < taken ==> answers(keysym_of, #[trigger] all[i].key@, syms[i]),
            out@ == resolved(all.take(taken), syms),
        decreases left.len(),
    {
        let b: ConfigBinding = left.remove(0);
        let sym: Option<u32> = keysym_of(b.key.as_str());
        proof {
            assert(b == all[taken]);
            assert(answers(keysym_of, b.key@, sym));
            lemma_resolved_push(all.take(taken), syms, b, sym);
            assert(all.take(taken + 1) =~= all.take(taken).push(b));
            syms = syms.push(sym);
            assert(left@ =~= all.skip(taken + 1));
            taken = taken + 1;
        }
        match sym {
            Some(keysym) => {
                out.push(Binding { keysym, mods: b.mods, press: b.press, action: b.action });
            },
            None => {},
        }
    }
    proof {
        assert(all.take(taken) =~= all);
        assert(are_keysyms(keysym_of, all, syms));
    }
    out
}

// ---------------------------------------------------------------------------
// Keys
// ---------------------------------------------------------------------------

/// What the bindings make of a key.
#[derive(Debug)]
pub enum PressOutcome {
    /// Nothing is bound to it.
    Forward,
    /// It is bound, and does nothing now.
    Swallow,
    /// It fires.
    Fire(Action),
}

/// Whether the focused client sees a key.
#[derive(Clone, Copy, Debug, PartialEq, Eq, Structural)]
pub enum Filter {
    Forward,
    Intercept,
}

/// Whether a key event is over before the bindings see it: a press while the
/// panel is dark wakes it and does nothing else.
pub fn swallowed_by_wake(pressed: bool, blank: &mut Blank) -> (r: bool)
    ensures
        r == (pressed && old(blank).blanked),
        final(blank).blanked == (old(blank).blanked && !pressed),
        final(blank).dirty == (old(blank).dirty || r),
{
    if !pressed {
        return false;
    }
    match blank.on_key_press() {
        KeyWhileBlanked::Woke => true,
        KeyWhileBlanked::Normal => false,
    }
}

/// What is done about what the bindings make of a key: whether the client sees
/// it, and what fires.
pub fn on_key_event(outcome: PressOutcome) -> (r: (Filter, Option<Action>))
    ensures
        match outcome {
            PressOutcome::Forward => r == (Filter::Forward, None::<Action>),
            PressOutcome::Swallow => r == (Filter::Intercept, None::<Action>),
            PressOutcome::Fire(action) => r == (Filter::Intercept, Some(action)),
        },
{
    match outcome {
        PressOutcome::Forward => (Filter::Forward, None),
        PressOutcome::Swallow => (Filter::Intercept, None),
        PressOutcome::Fire(action) => (Filter::Intercept, Some(action)),
    }
}

/// A key that is bound never reaches the client.
pub proof fn law_bound_key_stays_with_the_shell(outcome: PressOutcome, r: (Filter, Option<Action>))
    requires
        match outcome {
            PressOutcome::Forward => r == (Filter::Forward, None::<Action>),
            PressOutcome::Swallow => r == (Filter::Intercept, None::<Action>),
            PressOutcome::Fire(action) => r == (Filter::Intercept, Some(action)),
        },
    ensures
        r.0 == Filter::Forward <==> outcome is Forward,
        r.1 is Some ==> r.0 == Filter::Intercept,
{
}

/// The lowest and the highest code that a key of the keyboard has.
pub const FIRST_KEYCODE: u32 = 8;

pub const LAST_KEYCODE: u32 = 255;

/// Whether `has_sym` can be asked about every key.
pub open spec fn knows_keys<F: Fn(u32) -> bool>(has_sym: F) -> bool {
    forall|code: u32| call_requires(has_sym, (code,))
}

/// Whether `has_sym` denied the symbol for every key with a code below `to`.
pub open spec fn lack_the_symbol<F: Fn(u32) -> bool>(has_sym: F, to: int) -> bool {
    forall|c: u32| FIRST_KEYCODE <= c < to ==> #[trigger] call_ensures(has_sym, (c,), false)
}

/// The first key that yields a symbol, by what `has_sym` answers for each key in
/// order.
pub fn keycode_for_keysym<F: Fn(u32) -> bool>(has_sym: F) -> (r: Option<u32>)
    requires
        knows_keys(has_sym),
    ensures
        match r {
            Some(code) => FIRST_KEYCODE <= code <= LAST_KEYCODE && call_ensures(
                has_sym,
                (code,),
                true,
            ) && lack_the_symbol(has_sym, code as int),
            None => lack_the_symbol(has_sym, LAST_KEYCODE + 1),
        },
{
    let mut code: u32 = FIRST_KEYCODE;
    while code <= LAST_KEYCODE
        invariant
            FIRST_KEYCODE <= code <= LAST_KEYCODE + 1,
            knows_keys(has_sym),
            forall|c: u32|
                FIRST_KEYCODE <= c < code ==> #[trigger] call_ensures(has_sym, (c,), false),
        decreases LAST_KEYCODE + 1 - code,
    {
        if has_sym(code) {
            return Some(code);
        }
        code = code + 1;
    }
    None
}

// ---------------------------------------------------------------------------
// Actions
// ---------------------------------------------------------------------------

/// One step of the volume.
#[derive(Clone, Copy, Debug, PartialEq, Eq, Structural)]
pub enum VolumeChange {
    Up,
    Down,
    Mute,
}

/// What the shell does for an action.
#[derive(Debug)]
pub enum ActionStep {
    /// Run a line in the shell of the system, without waiting for it.
    Spawn(String),
    CloseFrontApp,
    ReturnHome,
    ToggleDisplay,
    AdjustVolume(VolumeChange),
}

/// What the shell does for an action.
pub open spec fn step_for(action: Action) -> ActionStep {
    match action {
        Action::Command(line) => ActionStep::Spawn(line),
        Action::CloseApp => ActionStep::CloseFrontApp,
        Action::Home => ActionStep::ReturnHome,
        Action::ToggleDisplay => ActionStep::ToggleDisplay,
        Action::VolumeUp => ActionStep::AdjustVolume(VolumeChange::Up),
        Action::VolumeDown => ActionStep::AdjustVolume(VolumeChange::Down),
        Action::VolumeMute => ActionStep::AdjustVolume(VolumeChange::Mute),
    }
}

/// What the shell does for an action that fired.
pub fn run_action(action: Action) -> (r: ActionStep)
    ensures
        r == step_for(action),
{
    match action {
        Action::Command(line) => ActionStep::Spawn(line),
        Action::CloseApp => ActionStep::CloseFrontApp,
        Action::Home => ActionStep::ReturnHome,
        Action::ToggleDisplay => ActionStep::ToggleDisplay,
        Action::VolumeUp => ActionStep::AdjustVolume(VolumeChange::Up),
        Action::VolumeDown => ActionStep::AdjustVolume(VolumeChange::Down),
        Action::VolumeMute => ActionStep::AdjustVolume(VolumeChange::Mute),
    }
}

pub open spec fn steps_for(actions: Seq<Action>) -> Seq<ActionStep> {
    actions.map_values(|a: Action| step_for(a))
}

/// What the shell does for the long presses that are due, in order.
pub fn poll(due: Vec<Action>) -> (out: Vec<ActionStep>)
    ensures
        out@ == steps_for(due@),
{
    let ghost all = due@;
    let mut left: Vec<Action> = due;
    let mut out: Vec<ActionStep> = Vec::new();
    let ghost mut taken: int = 0;
    while left.len() > 0
        invariant
            0 <= taken <= all.len(),
            left@ == all.skip(taken),
            out@ =~= steps_for(all).take(taken),
        decreases left.len(),
    {
        let action: Action = left.remove(0);
        proof {
            assert(action == all[taken]);
            assert(left@ =~= all.skip(taken + 1));
            taken = taken + 1;
        }
        out.push(run_action(action));
    }
    proof {
        assert(steps_for(all).take(taken) =~= steps_for(all));
    }
    out
}

/// The processes that still run, in order.
pub open spec fn running(children: Seq<u32>, done: Seq<bool>) -> Seq<u32>
    decreases children.len(),
{
    if children.len() == 0 || done.len() == 0 {
        Seq::empty()
    } else {
        let rest = running(children.drop_last(), done.drop_last());
        if done.last() {
            rest
        } else {
            rest.push(children.last())
        }
    }
}

/// Forget the processes that ended. `done` says of each whether it did, or can
/// no longer be asked.
pub fn reap(children: &mut Vec<u32>, done: &Vec<bool>)
    requires
        old(children)@.len() == done@.len(),
    ensures
        final(children)@ == running(old(children)@, done@),
{
    let ghost was = children@;
    let mut left: Vec<u32> = Vec::new();
    let mut i: usize = 0;
    while i < children.len()
        invariant
            i <= children.len(),
            children@ == was,
            was.len() == done@.len(),
            left@ == running(was.take(i as int), done@.take(i as int)),
        decreases children.len() - i,
    {
        proof {
            assert(was.take(i + 1).drop_last() =~= was.take(i as int));
            assert(done@.take(i + 1).drop_last() =~= done@.take(i as int));
        }
        if !done[i] {
            left.push(children[i]);
        }
        i = i + 1;
    }
    proof {
        assert(was.take(i as int) =~= was);
        assert(done@.take(i as int) =~= done@);
    }
    *children = left;
}

/// The sink that the volume actions go to.
pub const SINK: &'static str = "@DEFAULT_SINK@";

/// The words for the mixer that make a change.
pub fn volume_args(change: VolumeChange) -> (out: Vec<String>)
    ensures
        texts(out@) == match change {
            VolumeChange::Up => seq!["set-volume"@, SINK@, "5%+"@],
            VolumeChange::Down => seq!["set-volume"@, SINK@, "5%-"@],
            VolumeChange::Mute => seq!["set-mute"@, SINK@, "toggle"@],
        },
{
    let mut out: Vec<String> = Vec::new();
    match change {
        VolumeChange::Up => {
            out.push(copy("set-volume"));
            out.push(copy(SINK));
            out.push(copy("5%+"));
            proof {
                assert(texts(out@) =~= seq!["set-volume"@, SINK@, "5%+"@]);
            }
        },
        VolumeChange::Down => {
            out.push(copy("set-volume"));
            out.push(copy(SINK));
            out.push(copy("5%-"));
            proof {
                assert(texts(out@) =~= seq!["set-volume"@, SINK@, "5%-"@]);
            }
        },
        VolumeChange::Mute => {
            out.push(copy("set-mute"));
            out.push(copy(SINK));
            out.push(copy("toggle"));
            proof {
                assert(texts(out@) =~= seq!["set-mute"@, SINK@, "toggle"@]);
            }
        },
    }
    out
}

/// The name of an action in the log.
pub fn action_name(action: &Action) -> (r: &'static str)
    ensures
        r@ == match *action {
            Action::Command(_) => "command"@,
            Action::CloseApp => "close-app"@,
            Action::Home => "home"@,
            Action::ToggleDisplay => "toggle-display"@,
            Action::VolumeUp => "volume-up"@,
            Action::VolumeDown => "volume-down"@,
            Action::VolumeMute => "volume-mute"@,
        },
{
    match action {
        Action::Command(_) => "command",
        Action::CloseApp => "close-app",
        Action::Home => "home",
        Action::ToggleDisplay => "toggle-display",
        Action::VolumeUp => "volume-up",
        Action::VolumeDown => "volume-down",
        Action::VolumeMute => "volume-mute",
    }
}

// ---------------------------------------------------------------------------
// Laws
// ---------------------------------------------------------------------------

/// Each action does what it is called: the volume goes up for up and down for down,
/// the display is toggled, the front app closed, Home returned to, and a command is
/// run as it is written. No action does what another one is for.
pub proof fn law_action_does_what_it_is_called(action: Action, r: ActionStep)
    requires
        call_ensures(run_action, (action,), r),
    ensures
        r == ActionStep::AdjustVolume(VolumeChange::Up) <==> action is VolumeUp,
        r == ActionStep::AdjustVolume(VolumeChange::Down) <==> action is VolumeDown,
        r == ActionStep::AdjustVolume(VolumeChange::Mute) <==> action is VolumeMute,
        r is CloseFrontApp <==> action is CloseApp,
        r is ReturnHome <==> action is Home,
        r is ToggleDisplay <==> action is ToggleDisplay,
        r is Spawn <==> action is Command,
        action matches Action::Command(line) ==> r matches ActionStep::Spawn(l) && l@ == line@,
{
}

/// The long presses that are due are done in order, each what it would do by
/// itself.
pub proof fn law_due_presses_are_done_in_order(due: Vec<Action>, out: Vec<ActionStep>, i: int)
    requires
        call_ensures(poll, (due,), out),
        0 <= i < due@.len(),
    ensures
        out@.len() == due@.len(),
        out@[i] == ActionStep::AdjustVolume(VolumeChange::Up) <==> due@[i] is VolumeUp,
        out@[i] == ActionStep::AdjustVolume(VolumeChange::Down) <==> due@[i] is VolumeDown,
        out@[i] == ActionStep::AdjustVolume(VolumeChange::Mute) <==> due@[i] is VolumeMute,
        out@[i] is CloseFrontApp <==> due@[i] is CloseApp,
        out@[i] is ReturnHome <==> due@[i] is Home,
        out@[i] is ToggleDisplay <==> due@[i] is ToggleDisplay,
        due@[i] matches Action::Command(line) ==> out@[i] == ActionStep::Spawn(line),
{
}

/// The mixer is told to raise the volume for up, to lower it for down, by as much,
/// and to toggle the mute for mute; it is always the same sink.
pub proof fn law_mixer_is_told_the_direction(change: VolumeChange, out: Vec<String>)
    requires
        call_ensures(volume_args, (change,), out),
    ensures
        out@.len() == 3,
        texts(out@)[1] == SINK@,
        texts(out@)[0] == "set-mute"@ <==> change == VolumeChange::Mute,
        texts(out@)[0] == "set-volume"@ <==> change != VolumeChange::Mute,
        texts(out@)[2].last() == '+' <==> change == VolumeChange::Up,
        texts(out@)[2].last() == '-' <==> change == VolumeChange::Down,
        change != VolumeChange::Mute ==> texts(out@)[2].drop_last() == "5%"@,
        change == VolumeChange::Mute ==> texts(out@)[2] == "toggle"@,
{
    reveal_strlit("set-volume");
    reveal_strlit("set-mute");
    reveal_strlit("5%+");
    reveal_strlit("5%-");
    reveal_strlit("5%");
    reveal_strlit("toggle");
    assert(texts(out@).len() == out@.len());
    assert("set-volume"@.len() == 10 && "set-mute"@.len() == 8);
    assert("5%+"@.drop_last() =~= "5%"@);
    assert("5%-"@.drop_last() =~= "5%"@);
}

/// A key that nothing is bound to goes to the client and fires nothing. One that is
/// bound stays with the shell, and fires what is bound to it if it fires at all.
pub proof fn law_only_unbound_keys_reach_the_client(
    outcome: PressOutcome,
    r: (Filter, Option<Action>),
)
    requires
        call_ensures(on_key_event, (outcome,), r),
    ensures
        r.0 == Filter::Forward <==> outcome is Forward,
        r.1 is Some <==> outcome is Fire,
        outcome matches PressOutcome::Fire(a) ==> r.1 == Some(a),
{
}

/// A lock that is on changes no binding, and each modifier counts for itself.
pub proof fn law_locks_change_no_binding(
    a: &ModifiersState,
    b: &ModifiersState,
    x: ModMask,
    y: ModMask,
)
    requires
        call_ensures(mod_mask, (a,), x),
        call_ensures(mod_mask, (b,), y),
    ensures
        x == y <==> a.ctrl == b.ctrl && a.alt == b.alt && a.shift == b.shift && a.logo == b.logo,
        x.ctrl == a.ctrl && x.alt == a.alt && x.shift == a.shift && x.logo == a.logo,
{
}

/// A press on a dark panel wakes it and is swallowed, and nothing else is. A
/// release never wakes.
pub proof fn law_waking_press_is_swallowed(pressed: bool, blank: &mut Blank, r: bool)
    requires
        call_ensures(swallowed_by_wake, (pressed, blank), r),
    ensures
        r <==> pressed && old(blank).blanked,
        r ==> !final(blank).blanked && final(blank).dirty,
        !r ==> final(blank).blanked == old(blank).blanked && final(blank).dirty == old(blank).dirty,
{
}

/// The first file that could be read is the one that counts: the ones before it
/// gave nothing, and the ones behind it are not looked at.
pub proof fn law_first_readable_file_counts(reads: Seq<ReadFile>, k: int, t: String)
    requires
        0 <= k < reads.len(),
        forall|i: int| 0 <= i < k ==> !((#[trigger] reads[i]) is Text),
        reads[k] == ReadFile::Text(t),
    ensures
        first_text(reads) == Some(t@),
        first_text(reads.take(k)) is None,
    decreases k,
{
    if k > 0 {
        let rest = reads.skip(1);
        assert forall|i: int| 0 <= i < k - 1 implies !((#[trigger] rest[i]) is Text) by {
            assert(rest[i] == reads[i + 1]);
        }
        assert(!(reads[0] is Text));
        law_first_readable_file_counts(rest, k - 1, t);
        assert(reads.take(k).skip(1) =~= rest.take(k - 1));
    }
}

/// The user's file goes before the system's. The directory for configuration, where
/// it is named, goes before the one under the home directory.
pub proof fn law_user_config_goes_first(xdg: Option<Seq<char>>, home: Option<Seq<char>>)
    ensures
        ({
            let c = config_candidates(xdg, home);
            &&& c.last() == "/etc/springchick/config.toml"@
            &&& c.len() == 2 <==> xdg is Some || home is Some
            &&& c.len() == 1 <==> xdg is None && home is None
            &&& xdg is Some ==> c[0] == path_join(xdg->0, "springchick/config.toml"@)
            &&& xdg is None && home is Some ==> c[0] == path_join(
                path_join(home->0, ".config"@),
                "springchick/config.toml"@,
            )
        }),
{
}

/// Every binding whose key is known works, with all that was configured of it, and
/// in the order of the configuration; the others are dropped.
pub proof fn law_known_keys_stay_bound(bs: Seq<ConfigBinding>, syms: Seq<Option<u32>>, i: int)
    requires
        bs.len() == syms.len(),
        0 <= i < bs.len(),
    ensures
        syms[i] matches Some(k) ==> resolved(bs, syms).contains(
            Binding { keysym: k, mods: bs[i].mods, press: bs[i].press, action: bs[i].action },
        ),
        resolved(bs, syms).len() <= bs.len(),
        (forall|j: int| 0 <= j < syms.len() ==> (#[trigger] syms[j]) is Some) ==> resolved(bs, syms).len()
            == bs.len(),
    decreases bs.len(),
{
    let all = resolved(bs, syms);
    let rest = resolved(bs.skip(1), syms.skip(1));
    assert forall|b: Binding| rest.contains(b) implies all.contains(b) by {
        let k = choose|k: int| 0 <= k < rest.len() && rest[k] == b;
        if syms[0] is Some {
            assert(all[k + 1] == b);
        } else {
            assert(all[k] == b);
        }
    }
    if i > 0 {
        law_known_keys_stay_bound(bs.skip(1), syms.skip(1), i - 1);
        assert(syms.skip(1)[i - 1] == syms[i]);
        assert(bs.skip(1)[i - 1] == bs[i]);
    } else {
        if syms[0] is Some {
            assert(all[0] == bound(bs[0], syms[0]->0));
        }
        if bs.len() > 1 {
            law_known_keys_stay_bound(bs.skip(1), syms.skip(1), 0);
        } else {
            assert(bs.skip(1).len() == 0);
        }
    }
    if forall|j: int| 0 <= j < syms.len() ==> (#[trigger] syms[j]) is Some {
        assert forall|j: int| 0 <= j < syms.skip(1).len() implies (#[trigger] syms.skip(1)[j]) is Some by {
            assert(syms[j + 1] is Some);
        }
    }
}

/// A process is forgotten exactly when it has ended, and the others keep their
/// order.
pub proof fn law_running_processes_are_kept(children: Seq<u32>, done: Seq<bool>, i: int)
    requires
        children.len() == done.len(),
        0 <= i < children.len(),
    ensures
        !done[i] ==> running(children, done).contains(children[i]),
        done[i] && (forall|j: int| 0 <= j < children.len() && j != i ==> #[trigger] children[j]
            != children[i]) ==> !running(children, done).contains(children[i]),
    decreases children.len(),
{
    let all = running(children, done);
    let cs = children.drop_last();
    let ds = done.drop_last();
    let rest = running(cs, ds);
    if i < cs.len() {
        law_running_processes_are_kept(cs, ds, i);
        if rest.contains(children[i]) {
            let k = choose|k: int| 0 <= k < rest.len() && rest[k] == children[i];
            assert(all[k] == children[i]);
        }
        if forall|j: int| 0 <= j < children.len() && j != i ==> #[trigger] children[j] != children[i] {
            assert forall|j: int| 0 <= j < cs.len() && j != i implies #[trigger] cs[j] != cs[i] by {
                assert(children[j] != children[i]);
            }
            assert(children[children.len() - 1] != children[i]);
        }
    } else {
        if !done[i] {
            assert(all[all.len() - 1] == children[i]);
        } else if forall|j: int| 0 <= j < children.len() && j != i ==> #[trigger] children[j] != children[i] {
            assert forall|k: int| 0 <= k < rest.len() implies rest[k] != children[i] by {
                lemma_running_is_listed(cs, ds, rest[k]);
                let j = choose|j: int| 0 <= j < cs.len() && cs[j] == rest[k];
                assert(children[j] == rest[k]);
            }
        }
    }
}

proof fn lemma_running_is_listed(children: Seq<u32>, done: Seq<bool>, c: u32)
    requires
        running(children, done).contains(c),
    ensures
        children.contains(c),
    decreases children.len(),
{
    if children.len() > 0 && done.len() > 0 {
        let all = running(children, done);
        let rest = running(children.drop_last(), done.drop_last());
        let k = choose|k: int| 0 <= k < all.len() && all[k] == c;
        if k < rest.len() {
            assert(rest[k] == c);
            lemma_running_is_listed(children.drop_last(), done.drop_last(), c);
            let j = choose|j: int| 0 <= j < children.drop_last().len() && children.drop_last()[j] == c;
            assert(children[j] == c);
        } else {
            assert(children[children.len() - 1] == c);
        }
    }
}

/// The log tells the actions apart, and calls each by its own name.
pub proof fn law_log_names_the_action(action: &Action, r: &'static str)
    requires
        call_ensures(action_name, (action,), r),
    ensures
        r@ == "command"@ <==> *action is Command,
        r@ == "close-app"@ <==> *action is CloseApp,
        r@ == "home"@ <==> *action is Home,
        r@ == "toggle-display"@ <==> *action is ToggleDisplay,
        r@ == "volume-up"@ <==> *action is VolumeUp,
        r@ == "volume-down"@ <==> *action is VolumeDown,
        r@ == "volume-mute"@ <==> *action is VolumeMute,
{
    reveal_strlit("command");
    reveal_strlit("close-app");
    reveal_strlit("home");
    reveal_strlit("toggle-display");
    reveal_strlit("volume-up");
    reveal_strlit("volume-down");
    reveal_strlit("volume-mute");
    assert("command"@.len() == 7 && "close-app"@.len() == 9 && "home"@.len() == 4);
    assert("toggle-display"@.len() == 14 && "volume-up"@.len() == 9);
    assert("volume-down"@.len() == 11 && "volume-mute"@.len() == 11);
    assert("close-app"@[0] == 'c' && "volume-up"@[0] == 'v');
    assert("volume-down"@[7] == 'd' && "volume-mute"@[7] == 'm');
}

/// The file that the environment names is the one that is read.
pub proof fn law_named_config_is_the_one<F: Fn(&str) -> Option<String>>(
    env: F,
    r: Option<String>,
    v: Option<Seq<char>>,
)
    requires
        call_ensures(env_override::<F>, (env,), r),
        forall|x: Option<String>| #[trigger] answers(env, "SPRINGCHICK_CONFIG"@, x) ==> text_of(x) == v,
    ensures
        text_of(r) == v,
{
}

/// The files that are looked for: the user's, in the directory that is set for it or
/// in the one of the home directory, and then the system's.
pub proof fn law_config_is_looked_for_in_order<F: Fn(&str) -> Option<String>>(
    env: F,
    out: Vec<String>,
    xdg: Option<Seq<char>>,
    home: Option<Seq<char>>,
)
    requires
        call_ensures(candidate_paths::<F>, (env,), out),
        forall|x: Option<String>| #[trigger] answers(env, "XDG_CONFIG_HOME"@, x) ==> text_of(x) == xdg,
        forall|x: Option<String>| #[trigger] answers(env, "HOME"@, x) ==> text_of(x) == home,
    ensures
        out@.len() > 0 && out@.last()@ == "/etc/springchick/config.toml"@,
        out@.len() == 2 <==> xdg is Some || home is Some,
        out@.len() == 1 <==> xdg is None && home is None,
        xdg matches Some(d) ==> out@[0]@ == path_join(d, "springchick/config.toml"@),
        xdg is None ==> (home matches Some(d) ==> out@[0]@ == path_join(
            path_join(d, ".config"@),
            "springchick/config.toml"@,
        )),
{
    let (x, h) = choose|x: Option<Seq<char>>, h: Option<Seq<char>>|
        env_holds(env, "XDG_CONFIG_HOME"@, x) && (x is None ==> env_holds(env, "HOME"@, h)) && texts(
            out@,
        ) == #[trigger] config_candidates(x, h);
    assert(x == xdg);
    law_user_config_goes_first(x, h);
    assert(texts(out@).len() == out@.len());
    assert(texts(out@).last() == out@.last()@);
    assert(texts(out@)[0] == out@[0]@);
}

/// The first of the files that could be read is the one that is loaded; the defaults
/// are, just when none could.
pub proof fn law_first_readable_file_is_loaded(reads: &Vec<ReadFile>, r: Loaded, k: int)
    requires
        call_ensures(load_config, (reads,), r),
        0 <= k <= reads@.len(),
        forall|i: int| 0 <= i < k ==> !((#[trigger] reads@[i]) is Text),
        k < reads@.len() ==> reads@[k] is Text,
    ensures
        k == reads@.len() <==> r is Defaults,
        k < reads@.len() ==> (reads@[k] matches ReadFile::Text(t) && r matches Loaded::Text(u) && u@
            == t@),
{
    if k < reads@.len() {
        law_first_readable_file_counts(reads@, k, reads@[k]->Text_0);
    } else {
        lemma_no_text(reads@);
    }
}

proof fn lemma_no_text(reads: Seq<ReadFile>)
    requires
        forall|i: int| 0 <= i < reads.len() ==> !((#[trigger] reads[i]) is Text),
    ensures
        first_text(reads) is None,
    decreases reads.len(),
{
    if reads.len() > 0 {
        let rest = reads.skip(1);
        assert forall|i: int| 0 <= i < rest.len() implies !((#[trigger] rest[i]) is Text) by {
            assert(rest[i] == reads[i + 1]);
        }
        assert(!(reads[0] is Text));
        lemma_no_text(rest);
    }
}

/// A binding whose key is known is kept, with its modifiers, its press and its
/// action; where every key is known, every binding is.
pub proof fn law_binding_keeps_its_action<F: Fn(&str) -> Option<u32>>(
    bindings: Vec<ConfigBinding>,
    keysym_of: F,
    out: Vec<Binding>,
    i: int,
    k: u32,
)
    requires
        call_ensures(resolve::<F>, (bindings, keysym_of), out),
        0 <= i < bindings@.len(),
        forall|x: Option<u32>| #[trigger] answers(keysym_of, bindings@[i].key@, x) ==> x == Some(k),
    ensures
        exists|j: int|
            0 <= j < out@.len() && (#[trigger] out@[j]).keysym == k && out@[j].mods == bindings@[i].mods
                && out@[j].press == bindings@[i].press && out@[j].action == bindings@[i].action,
        out@.len() <= bindings@.len(),
{
    let syms = choose|syms: Seq<Option<u32>>| #[trigger]
        are_keysyms(keysym_of, bindings@, syms) && out@ == resolved(bindings@, syms);
    let b = bindings@[i];
    assert(answers(keysym_of, bindings@[i].key@, syms[i]));
    law_known_keys_stay_bound(bindings@, syms, i);
    let kept = Binding { keysym: k, mods: b.mods, press: b.press, action: b.action };
    let j = choose|j: int| 0 <= j < out@.len() && out@[j] == kept;
    assert(out@[j].keysym == k);
}

/// A key that is found has the symbol, and no key with a smaller code does; none is
/// found just when no key has it.
pub proof fn law_first_key_with_the_symbol_is_found<F: Fn(u32) -> bool>(
    has_sym: F,
    r: Option<u32>,
    c: u32,
)
    requires
        call_ensures(keycode_for_keysym::<F>, (has_sym,), r),
        8 <= c <= 255,
    ensures
        r matches Some(code) ==> 8 <= code <= 255 && call_ensures(has_sym, (code,), true),
        r matches Some(code) ==> (c < code ==> call_ensures(has_sym, (c,), false)),
        r is None ==> call_ensures(has_sym, (c,), false),
{
}

proof fn lemma_running(children: Seq<u32>, done: Seq<bool>)
    requires
        children.len() == done.len(),
    ensures
        (forall|j: int| 0 <= j < done.len() ==> done[j]) ==> running(children, done).len() == 0,
        (forall|j: int| 0 <= j < done.len() ==> !done[j]) ==> running(children, done) == children,
        forall|x: u32| running(children, done).contains(x) ==> children.contains(x),
    decreases children.len(),
{
    if children.len() > 0 {
        let rest = running(children.drop_last(), done.drop_last());
        lemma_running(children.drop_last(), done.drop_last());
        if forall|j: int| 0 <= j < done.len() ==> !done[j] {
            assert(!done.last());
            assert(rest.push(children.last()) =~= children);
        }
        if forall|j: int| 0 <= j < done.len() ==> done[j] {
            assert(done.last());
        }
        assert forall|x: u32| running(children, done).contains(x) implies children.contains(x) by {
            let all = running(children, done);
            let k = choose|k: int| 0 <= k < all.len() && all[k] == x;
            if k < rest.len() {
                assert(rest.contains(x));
                let front = children.drop_last();
                assert(front.contains(x));
                let i = choose|i: int| 0 <= i < front.len() && front[i] == x;
                assert(children[i] == x);
            } else {
                assert(children[children.len() - 1] == x);
            }
        }
    }
}

/// Processes that still run are kept, those that are done are not, and none comes
/// up that was not there.
pub proof fn law_done_processes_are_reaped(children: &mut Vec<u32>, done: &Vec<bool>, i: int)
    requires
        call_ensures(reap, (children, done), ()),
        old(children)@.len() == done@.len(),
        0 <= i < done@.len(),
    ensures
        !done@[i] ==> final(children)@.contains(old(children)@[i]),
        done@[i] && (forall|j: int|
            0 <= j < done@.len() && j != i ==> #[trigger] old(children)@[j] != old(children)@[i])
            ==> !final(children)@.contains(old(children)@[i]),
        (forall|j: int| 0 <= j < done@.len() ==> done@[j]) ==> final(children)@.len() == 0,
        (forall|j: int| 0 <= j < done@.len() ==> !done@[j]) ==> final(children)@ == old(children)@,
        forall|x: u32| final(children)@.contains(x) ==> old(children)@.contains(x),
{
    law_running_processes_are_kept(old(children)@, done@, i);
    lemma_running(old(children)@, done@);
}

/// A binding without modifiers is met by a key that is pressed with none.
pub proof fn law_no_modifier_is_no_modifier(none: ModMask, state: &ModifiersState, held: ModMask)
    requires
        call_ensures(ModMask::none, (), none),
        call_ensures(mod_mask, (state,), held),
    ensures
        held == none <==> !state.ctrl && !state.alt && !state.shift && !state.logo,
{
}

} // verus!
