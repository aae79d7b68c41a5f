//! Launching apps: the command that is run for an entry, and the scope it runs
//! in.
use vstd::prelude::*;

use crate::catalog::{
    launch_command, launched, law_entry_is_launched_by_its_line, law_launch_has_a_program, AppEntry,
    EntryView, LaunchCommand, LaunchView,
};
use crate::exec_line::{argv, ContextView};
use crate::text::{
    chars_of, concat, copy, copy_opt, decimal, decimal_of, law_decimal_is_injective, text_of,
    texts, total,
};

verus! {

/// The slice that the scopes of apps live in.
pub const APP_SLICE: &'static str = "app.slice";

// ---------------------------------------------------------------------------
// Scopes
// ---------------------------------------------------------------------------

/// Whether a character may stand in the name of a scope.
pub open spec fn is_scope_char(c: char) -> bool {
    'A' <= c <= 'Z' || 'a' <= c <= 'z' || '0' <= c <= '9' || c == ':' || c == '_' || c == '.' || c
        == '-'
}

/// How many characters of an app's id stand in the name of its scope.
pub open spec fn id_len(app_id: Seq<char>) -> int {
    if app_id.len() <= 64 {
        app_id.len() as int
    } else {
        64
    }
}

/// The start of an app's id, with `_` for what may not stand in the name of a
/// scope.
pub open spec fn scope_id(app_id: Seq<char>) -> Seq<char> {
    Seq::new(
        id_len(app_id) as nat,
        |i: int|
            if is_scope_char(app_id[i]) {
                app_id[i]
            } else {
                '_'
            },
    )
}

/// The name of the scope of one launch.
pub open spec fn scope_text(app_id: Seq<char>, pid: u32, seq: u64) -> Seq<char> {
    "springchick-"@ + (decimal(pid as nat) + ("-"@ + (decimal(seq as nat) + ("-"@ + (scope_id(app_id)
        + ".scope"@)))))
}

/// The name of the scope of one launch. The shell's own process keeps it apart
/// from the scopes that an earlier shell left behind, and the counter keeps two
/// launches of an app apart.
pub fn scope_name(app_id: &str, pid: u32, seq: u64) -> (out: String)
    ensures
        out@ == scope_text(app_id@, pid, seq),
{
    let cs: Vec<char> = chars_of(app_id);
    let mut id: String = String::new();
    let mut i: usize = 0;
    while i < cs.len() && i < 64
        invariant
            i <= id_len(cs@),
            cs@ == app_id@,
            id@ =~= scope_id(cs@).take(i as int),
        decreases cs.len() - i,
    {
        let c: char = cs[i];
        let safe: bool = ('A' <= c && c <= 'Z') || ('a' <= c && c <= 'z') || ('0' <= c && c <= '9')
            || c == ':' || c == '_' || c == '.' || c == '-';
        id.push(
            if safe {
                c
            } else {
                '_'
            },
        );
        i = i + 1;
    }
    proof {
        assert(scope_id(cs@).take(i as int) =~= scope_id(cs@));
    }
    let mut out: String = concat("springchick-", decimal_of(pid as u64).as_str());
    out.append("-");
    out.append(decimal_of(seq).as_str());
    out.append("-");
    out.append(id.as_str());
    out.append(".scope");
    proof {
        assert(out@ =~= scope_text(app_id@, pid, seq));
    }
    out
}

/// The name of the scope of the next launch of an app, when there is a service
/// manager to register it with. `seq` counts the names that were given out.
pub fn next_scope(available: bool, app_id: &str, pid: u32, seq: &mut u64) -> (r: Option<String>)
    ensures
        match r {
            Some(name) => available && name@ == scope_text(app_id@, pid, *old(seq)) && *final(seq)
                == old(seq).wrapping_add(1),
            None => !available && *final(seq) == *old(seq),
        },
{
    if !available {
        return None;
    }
    let name: String = scope_name(app_id, pid, *seq);
    *seq = seq.wrapping_add(1);
    Some(name)
}

/// Nothing but what the service manager accepts stands in the name of a scope.
pub proof fn law_scope_id_is_safe(app_id: Seq<char>)
    ensures
        scope_id(app_id).len() <= 64,
        forall|i: int| 0 <= i < scope_id(app_id).len() ==> is_scope_char(#[trigger] scope_id(app_id)[i]),
{
}

proof fn lemma_decimal_has_digits(n: nat)
    ensures
        forall|i: int| 0 <= i < decimal(n).len() ==> #[trigger] decimal(n)[i] != '-',
        decimal(n).len() > 0,
    decreases n,
{
    if n >= 10 {
        lemma_decimal_has_digits(n / 10);
    }
}

/// What stands before the first dash, and after it, is decided.
proof fn lemma_cut_at_dash(a: Seq<char>, x: Seq<char>, b: Seq<char>, y: Seq<char>)
    requires
        a + ("-"@ + x) == b + ("-"@ + y),
        forall|i: int| 0 <= i < a.len() ==> a[i] != '-',
        forall|i: int| 0 <= i < b.len() ==> b[i] != '-',
    ensures
        a == b,
        x == y,
{
    reveal_strlit("-");
    let l = a + ("-"@ + x);
    let r = b + ("-"@ + y);
    if a.len() < b.len() {
        assert(l[a.len() as int] == '-');
        assert(r[a.len() as int] == b[a.len() as int]);
    }
    if b.len() < a.len() {
        assert(r[b.len() as int] == '-');
        assert(l[b.len() as int] == a[b.len() as int]);
    }
    assert forall|i: int| 0 <= i < a.len() implies a[i] == b[i] by {
        assert(l[i] == a[i] && r[i] == b[i]);
    }
    assert(a =~= b);
    assert(l.len() == a.len() + 1 + x.len());
    assert(r.len() == b.len() + 1 + y.len());
    assert forall|i: int| 0 <= i < x.len() implies x[i] == y[i] by {
        assert(l[a.len() + 1 + i] == x[i]);
        assert(r[b.len() + 1 + i] == y[i]);
    }
    assert(x =~= y);
}

/// Two launches never share a scope: the names of different processes, or of
/// different counts, differ.
pub proof fn law_scope_names_differ(a: Seq<char>, pid: u32, seq: u64, b: Seq<char>, pid2: u32, seq2: u64)
    requires
        scope_text(a, pid, seq) == scope_text(b, pid2, seq2),
    ensures
        pid == pid2 && seq == seq2,
        scope_id(a) == scope_id(b),
{
    let head = "springchick-"@;
    let x = decimal(pid as nat) + ("-"@ + (decimal(seq as nat) + ("-"@ + (scope_id(a) + ".scope"@))));
    let y = decimal(pid2 as nat) + ("-"@ + (decimal(seq2 as nat) + ("-"@ + (scope_id(b) + ".scope"@))));
    assert(x =~= (head + x).skip(head.len() as int));
    assert(y =~= (head + y).skip(head.len() as int));
    lemma_decimal_has_digits(pid as nat);
    lemma_decimal_has_digits(pid2 as nat);
    lemma_decimal_has_digits(seq as nat);
    lemma_decimal_has_digits(seq2 as nat);
    lemma_cut_at_dash(
        decimal(pid as nat),
        decimal(seq as nat) + ("-"@ + (scope_id(a) + ".scope"@)),
        decimal(pid2 as nat),
        decimal(seq2 as nat) + ("-"@ + (scope_id(b) + ".scope"@)),
    );
    lemma_cut_at_dash(
        decimal(seq as nat),
        scope_id(a) + ".scope"@,
        decimal(seq2 as nat),
        scope_id(b) + ".scope"@,
    );
    law_decimal_is_injective(pid as nat, pid2 as nat);
    law_decimal_is_injective(seq as nat, seq2 as nat);
    let n = scope_id(a).len() as int;
    assert((scope_id(a) + ".scope"@).len() == (scope_id(b) + ".scope"@).len());
    assert(scope_id(a) =~= (scope_id(a) + ".scope"@).take(n));
    assert(scope_id(b) =~= (scope_id(b) + ".scope"@).take(n));
}

// ---------------------------------------------------------------------------
// Commands
// ---------------------------------------------------------------------------

/// A variable of the environment.
#[derive(Debug)]
pub struct EnvVar {
    pub name: String,
    pub value: String,
}

/// A process to start: what is run, where, and what its environment has and
/// lacks compared to the shell's.
#[derive(Debug)]
pub struct SpawnPlan {
    pub program: String,
    pub args: Vec<String>,
    pub cwd: Option<String>,
    pub set: Vec<EnvVar>,
    pub unset: Vec<String>,
}

/// What a [`SpawnPlan`] holds.
pub struct SpawnView {
    pub program: Seq<char>,
    pub args: Seq<Seq<char>>,
    pub cwd: Option<Seq<char>>,
    pub set: Seq<(Seq<char>, Seq<char>)>,
    pub unset: Seq<Seq<char>>,
}

pub open spec fn var_views(vars: Seq<EnvVar>) -> Seq<(Seq<char>, Seq<char>)> {
    vars.map_values(|v: EnvVar| (v.name@, v.value@))
}

impl View for SpawnPlan {
    type V = SpawnView;

    open spec fn view(&self) -> SpawnView {
        SpawnView {
            program: self.program@,
            args: texts(self.args@),
            cwd: text_of(self.cwd),
            set: var_views(self.set@),
            unset: texts(self.unset@),
        }
    }
}

/// What a launched app finds in its environment. The token names the launch, in
/// the spelling of now and of before: toolkits read one or the other.
pub open spec fn client_env(wayland_display: Seq<char>, token: Seq<char>) -> Seq<
    (Seq<char>, Seq<char>),
> {
    seq![
        ("WAYLAND_DISPLAY"@, wayland_display),
        ("GDK_BACKEND"@, "wayland"@),
        ("QT_QPA_PLATFORM"@, "wayland"@),
        ("XDG_ACTIVATION_TOKEN"@, token),
        ("DESKTOP_STARTUP_ID"@, token),
    ]
}

/// What a launched app does not find there: an input method of its own, and
/// another display server to fall back to.
pub open spec fn client_unset() -> Seq<Seq<char>> {
    seq!["QT_IM_MODULE"@, "DISPLAY"@]
}

/// The words that put what follows into the scope `unit`.
pub open spec fn scope_words(unit: Seq<char>) -> Seq<Seq<char>> {
    seq![
        "--user"@,
        "--scope"@,
        "--quiet"@,
        "--collect"@,
        "--slice="@ + APP_SLICE@,
        "--unit="@ + unit,
        "--"@,
    ]
}

/// The process that runs `command`, in a scope if there is one.
pub open spec fn spawned(
    command: LaunchView,
    wayland_display: Seq<char>,
    token: Seq<char>,
    scope: Option<Seq<char>>,
) -> SpawnView {
    SpawnView {
        program: match scope {
            Some(_) => "systemd-run"@,
            None => command.argv[0],
        },
        args: match scope {
            Some(unit) => scope_words(unit) + command.argv,
            None => command.argv.skip(1),
        },
        cwd: command.cwd,
        set: client_env(wayland_display, token),
        unset: client_unset(),
    }
}

fn env_var(name: &str, value: &str) -> (r: EnvVar)
    ensures
        r.name@ == name@,
        r.value@ == value@,
{
    EnvVar { name: copy(name), value: copy(value) }
}

/// The content of an optional text.
pub open spec fn unit_of(scope: Option<&str>) -> Option<Seq<char>> {
    match scope {
        Some(s) => Some(s@),
        None => None,
    }
}

/// The process that runs `command`. `None` when the command is empty.
pub fn plan(command: &LaunchCommand, wayland_display: &str, token: &str, scope: Option<&str>) -> (r:
    Option<SpawnPlan>)
    ensures
        match r {
            Some(p) => command.argv@.len() > 0 && p@ == spawned(
                command@,
                wayland_display@,
                token@,
                unit_of(scope),
            ),
            None => command.argv@.len() == 0,
        },
{
    if command.argv.len() == 0 {
        return None;
    }
    let mut args: Vec<String> = Vec::new();
    let mut from: usize = 0;
    let program: String = match scope {
        Some(unit) => {
            args.push(copy("--user"));
            args.push(copy("--scope"));
            args.push(copy("--quiet"));
            // Without this a scope that fails would stay behind.
            args.push(copy("--collect"));
            args.push(concat("--slice=", APP_SLICE));
            args.push(concat("--unit=", unit));
            args.push(copy("--"));
            proof {
                assert(texts(args@) =~= scope_words(unit@));
            }
            copy("systemd-run")
        },
        None => {
            from = 1;
            copy(command.argv[0].as_str())
        },
    };
    let ghost head = texts(args@);
    let mut i: usize = from;
    while i < command.argv.len()
        invariant
            from <= i <= command.argv.len(),
            texts(args@) =~= head + texts(command.argv@).subrange(from as int, i as int),
        decreases command.argv.len() - i,
    {
        let ghost before = texts(args@);
        args.push(copy(command.argv[i].as_str()));
        proof {
            assert(texts(args@) =~= before.push(command.argv@[i as int]@));
            assert(texts(command.argv@)[i as int] == command.argv@[i as int]@);
        }
        i = i + 1;
    }
    proof {
        let all = texts(command.argv@);
        assert(all.subrange(0, all.len() as int) =~= all);
        assert(all.subrange(1, all.len() as int) =~= all.skip(1));
        assert(Seq::<Seq<char>>::empty() + all.skip(1) =~= all.skip(1));
    }
    let mut set: Vec<EnvVar> = Vec::new();
    set.push(env_var("WAYLAND_DISPLAY", wayland_display));
    set.push(env_var("GDK_BACKEND", "wayland"));
    set.push(env_var("QT_QPA_PLATFORM", "wayland"));
    set.push(env_var("XDG_ACTIVATION_TOKEN", token));
    set.push(env_var("DESKTOP_STARTUP_ID", token));
    let mut unset: Vec<String> = Vec::new();
    unset.push(copy("QT_IM_MODULE"));
    unset.push(copy("DISPLAY"));
    let p: SpawnPlan = SpawnPlan { program, args, cwd: copy_opt(&command.cwd), set, unset };
    proof {
        let want = spawned(command@, wayland_display@, token@, unit_of(scope));
        assert(p@.set =~= want.set);
        assert(p@.unset =~= want.unset);
        assert(p@.args =~= want.args);
        assert(p@.program == want.program) by {
            assert(texts(command.argv@)[0] == command.argv@[0]@);
        }
    }
    Some(p)
}

/// How an app is started: in its scope, and where that cannot be started,
/// without it. Losing the scope costs the control over its resources, not the
/// launch.
#[derive(Debug)]
pub struct Launch {
    pub first: SpawnPlan,
    pub fallback: Option<SpawnPlan>,
}

/// Whether `l` is how `command` is started.
pub open spec fn is_launch(
    l: Launch,
    command: LaunchView,
    wayland_display: Seq<char>,
    token: Seq<char>,
    scope: Option<Seq<char>>,
) -> bool {
    &&& l.first@ == spawned(command, wayland_display, token, scope)
    &&& match l.fallback {
        Some(f) => scope is Some && f@ == spawned(command, wayland_display, token, None),
        None => scope is None,
    }
}

/// How an entry is started. `None` when there is nothing to run for it.
pub fn spawn_app<F: Fn(&str) -> bool>(
    entry: &AppEntry,
    terminal: &Option<String>,
    resolves: F,
    wayland_display: &str,
    token: &str,
    scope: Option<&str>,
) -> (r: Option<Launch>)
    requires
        total(resolves),
    ensures
        exists|c: Option<LaunchView>| #[trigger]
            launched(entry@, text_of(*terminal), resolves, c) && match c {
                Some(command) => if command.argv.len() > 0 {
                    r is Some && is_launch(
                        r->0,
                        command,
                        wayland_display@,
                        token@,
                        unit_of(scope),
                    )
                } else {
                    r is None
                },
                None => r is None,
            },
{
    match launch_command(entry, terminal, resolves) {
        None => {
            proof {
                assert(launched(entry@, text_of(*terminal), resolves, None));
            }
            None
        },
        Some(command) => {
            proof {
                assert(launched(entry@, text_of(*terminal), resolves, Some(command@)));
                assert(command@.argv.len() == command.argv@.len());
            }
            let fallback: Option<SpawnPlan> = match scope {
                Some(_) => plan(&command, wayland_display, token, None),
                None => None,
            };
            match plan(&command, wayland_display, token, scope) {
                Some(first) => Some(Launch { first, fallback }),
                None => None,
            }
        },
    }
}

/// An entry that is nothing but a command line.
pub open spec fn bare_entry(exec_line: Seq<char>) -> EntryView {
    EntryView {
        id: Seq::empty(),
        name: Seq::empty(),
        exec_line,
        icon: Seq::empty(),
        terminal: false,
        path: None,
        dbus_activatable: false,
        desktop_file: Seq::empty(),
        categories: Seq::empty(),
    }
}

/// How a bare command line is started: a helper of the shell's own, which gets
/// no scope.
pub fn spawn_exec<F: Fn(&str) -> bool>(
    exec_line: &str,
    terminal: &Option<String>,
    resolves: F,
    wayland_display: &str,
    token: &str,
) -> (r: Option<Launch>)
    requires
        total(resolves),
    ensures
        exists|c: Option<LaunchView>| #[trigger]
            launched(bare_entry(exec_line@), text_of(*terminal), resolves, c) && match c {
                Some(command) => if command.argv.len() > 0 {
                    r is Some && is_launch(r->0, command, wayland_display@, token@, None)
                } else {
                    r is None
                },
                None => r is None,
            },
{
    let entry: AppEntry = AppEntry {
        id: String::new(),
        name: String::new(),
        exec_line: copy(exec_line),
        icon: String::new(),
        terminal: false,
        path: None,
        dbus_activatable: false,
        desktop_file: String::new(),
        categories: Vec::new(),
    };
    proof {
        assert(entry@.categories =~= bare_entry(exec_line@).categories);
        assert(entry@ == bare_entry(exec_line@));
    }
    spawn_app(&entry, terminal, resolves, wayland_display, token, None)
}

/// What is done once a process was, or was not, started.
#[derive(Clone, Copy, Debug, PartialEq, Eq, Structural)]
pub enum SpawnNext {
    /// It runs.
    Running,
    /// Try the fallback.
    Retry,
    /// The launch failed.
    Failed,
}

/// What is done after the first try, and after the fallback.
pub fn after_spawn(started: bool, tried_fallback: bool, has_fallback: bool) -> (r: SpawnNext)
    ensures
        r == (if started {
            SpawnNext::Running
        } else if has_fallback && !tried_fallback {
            SpawnNext::Retry
        } else {
            SpawnNext::Failed
        }),
{
    if started {
        SpawnNext::Running
    } else if has_fallback && !tried_fallback {
        SpawnNext::Retry
    } else {
        SpawnNext::Failed
    }
}

/// The scope changes how an app is started and nothing that it sees: it runs
/// with the same words, directory and environment.
pub proof fn law_scope_only_wraps(command: LaunchView, display: Seq<char>, token: Seq<char>, unit: Seq<char>)
    requires
        command.argv.len() > 0,
    ensures
        ({
            let wrapped = spawned(command, display, token, Some(unit));
            let bare = spawned(command, display, token, None);
            &&& wrapped.args.skip(scope_words(unit).len() as int) == seq![bare.program] + bare.args
            &&& wrapped.cwd == bare.cwd
            &&& wrapped.set == bare.set
            &&& wrapped.unset == bare.unset
        }),
{
    let wrapped = spawned(command, display, token, Some(unit));
    let bare = spawned(command, display, token, None);
    assert(wrapped.args.skip(scope_words(unit).len() as int) =~= command.argv);
    assert(seq![bare.program] + bare.args =~= command.argv);
}

/// A launched app finds the display, and the token of its launch under both names,
/// and is kept from other display servers and from an input method of its own.
pub proof fn law_app_finds_its_display_and_token(
    command: LaunchView,
    display: Seq<char>,
    token: Seq<char>,
    scope: Option<Seq<char>>,
)
    ensures
        ({
            let s = spawned(command, display, token, scope);
            &&& s.set.contains(("WAYLAND_DISPLAY"@, display))
            &&& s.set.contains(("XDG_ACTIVATION_TOKEN"@, token))
            &&& s.set.contains(("DESKTOP_STARTUP_ID"@, token))
            &&& s.set.contains(("GDK_BACKEND"@, "wayland"@))
            &&& s.set.contains(("QT_QPA_PLATFORM"@, "wayland"@))
            &&& s.set.len() == 5
            &&& s.unset.contains("DISPLAY"@)
            &&& s.unset.contains("QT_IM_MODULE"@)
            &&& s.unset.len() == 2
            &&& s.cwd == command.cwd
        }),
{
    let s = spawned(command, display, token, scope);
    assert(s.set[0] == ("WAYLAND_DISPLAY"@, display));
    assert(s.set[1] == ("GDK_BACKEND"@, "wayland"@));
    assert(s.set[2] == ("QT_QPA_PLATFORM"@, "wayland"@));
    assert(s.set[3] == ("XDG_ACTIVATION_TOKEN"@, token));
    assert(s.set[4] == ("DESKTOP_STARTUP_ID"@, token));
    assert(s.unset[0] == "QT_IM_MODULE"@);
    assert(s.unset[1] == "DISPLAY"@);
}

/// With a scope the service manager of the user runs the command in it, in the
/// slice of the apps, and lets go of it when it ends; without one the command is
/// run as it is.
pub proof fn law_command_runs_in_its_scope(
    command: LaunchView,
    display: Seq<char>,
    token: Seq<char>,
    unit: Seq<char>,
)
    requires
        command.argv.len() > 0,
    ensures
        ({
            let wrapped = spawned(command, display, token, Some(unit));
            let bare = spawned(command, display, token, None);
            &&& wrapped.program == "systemd-run"@
            &&& wrapped.args.contains("--user"@) && wrapped.args.contains("--scope"@)
            &&& wrapped.args.contains("--collect"@)
            &&& wrapped.args.contains("--unit="@ + unit)
            &&& wrapped.args.contains("--slice="@ + APP_SLICE@)
            &&& wrapped.args[6] == "--"@ && wrapped.args.skip(7) == command.argv
            &&& bare.program == command.argv[0] && bare.args == command.argv.skip(1)
        }),
{
    let wrapped = spawned(command, display, token, Some(unit));
    assert(wrapped.args[0] == "--user"@);
    assert(wrapped.args[1] == "--scope"@);
    assert(wrapped.args[3] == "--collect"@);
    assert(wrapped.args[4] == "--slice="@ + APP_SLICE@);
    assert(wrapped.args[5] == "--unit="@ + unit);
    assert(wrapped.args.skip(7) =~= command.argv);
}

/// A launch in a scope falls back to the same command without it, and one without a
/// scope to nothing.
pub proof fn law_scope_is_never_needed(
    l: Launch,
    command: LaunchView,
    display: Seq<char>,
    token: Seq<char>,
    scope: Option<Seq<char>>,
)
    requires
        is_launch(l, command, display, token, scope),
        command.argv.len() > 0,
    ensures
        l.fallback is Some <==> scope is Some,
        l.fallback matches Some(f) ==> f@.program == command.argv[0] && f@.args
            == command.argv.skip(1) && f@.set == l.first@.set,
        scope is None ==> l.first@.program == command.argv[0],
{
}

/// A process that started runs; one that did not is tried once more without the
/// scope where there is such a way, and never again after that.
pub proof fn law_launch_is_retried_once(
    started: bool,
    tried_fallback: bool,
    has_fallback: bool,
    r: SpawnNext,
)
    requires
        call_ensures(after_spawn, (started, tried_fallback, has_fallback), r),
    ensures
        r == SpawnNext::Running <==> started,
        r == SpawnNext::Retry <==> !started && has_fallback && !tried_fallback,
        r == SpawnNext::Failed <==> !started && (tried_fallback || !has_fallback),
{
}

/// A scope is named only where it can be registered, and each name counts on.
pub proof fn law_scopes_are_counted(
    available: bool,
    app_id: &str,
    pid: u32,
    seq: &mut u64,
    r: Option<String>,
)
    requires
        call_ensures(next_scope, (available, app_id, pid, seq), r),
    ensures
        r is Some <==> available,
        !available ==> *final(seq) == *old(seq),
        available && *old(seq) < u64::MAX ==> *final(seq) == *old(seq) + 1,
        r matches Some(name) ==> name@ == scope_text(app_id@, pid, *old(seq)),
{
}

/// An id that holds nothing odd stands in the name as it is, and what is odd in
/// another one is written as an underscore, place by place.
pub proof fn law_plain_id_stands_in_the_name(app_id: Seq<char>, i: int)
    requires
        0 <= i < app_id.len(),
        i < 64,
    ensures
        i < scope_id(app_id).len(),
        is_scope_char(app_id[i]) ==> scope_id(app_id)[i] == app_id[i],
        !is_scope_char(app_id[i]) ==> scope_id(app_id)[i] == '_',
        app_id.len() <= 64 ==> scope_id(app_id).len() == app_id.len(),
        is_scope_char('a') && is_scope_char('Z') && is_scope_char('7') && is_scope_char('.')
            && is_scope_char('-') && is_scope_char('_') && is_scope_char(':'),
        !is_scope_char('/') && !is_scope_char(' ') && !is_scope_char('@') && !is_scope_char('\n'),
{
}

/// The process that [`plan`] gives: the command itself, or the service manager with
/// the command behind the words for the scope; always with the display and the
/// token that it was given.
pub proof fn law_planned_process_runs_the_command(
    command: &LaunchCommand,
    display: &str,
    token: &str,
    scope: Option<&str>,
    r: Option<SpawnPlan>,
)
    requires
        call_ensures(plan, (command, display, token, scope), r),
    ensures
        r is None <==> command.argv@.len() == 0,
        r matches Some(p) ==> ({
            let asked = texts(command.argv@);
            let words = texts(p.args@);
            &&& scope is None ==> p.program@ == asked[0] && words == asked.skip(1)
            &&& scope matches Some(unit) ==> p.program@ == "systemd-run"@ && words.len() == 7 + asked.len()
                && words.skip(7) == asked && words[6] == "--"@ && words.contains("--unit="@ + unit@)
                && words.contains("--user"@) && words.contains("--scope"@) && words.contains(
                "--slice="@ + APP_SLICE@,
            )
            &&& text_of(p.cwd) == text_of(command.cwd)
            &&& p@.set.contains(("WAYLAND_DISPLAY"@, display@))
            &&& p@.set.contains(("XDG_ACTIVATION_TOKEN"@, token@))
            &&& p@.set.contains(("DESKTOP_STARTUP_ID"@, token@))
            &&& p@.unset.contains("DISPLAY"@)
        }),
{
    if command.argv@.len() > 0 {
        let c = command@;
        assert(c.argv.len() == command.argv@.len());
        law_app_finds_its_display_and_token(c, display@, token@, unit_of(scope));
        match scope {
            Some(unit) => {
                law_command_runs_in_its_scope(c, display@, token@, unit@);
            },
            None => {},
        }
    }
}

/// A scope is named for its app, and no two processes and counts share a name.
pub proof fn law_scope_is_named_once(
    a: &str,
    pid: u32,
    n: u64,
    x: String,
    b: &str,
    other: u32,
    m: u64,
    y: String,
)
    requires
        call_ensures(scope_name, (a, pid, n), x),
        call_ensures(scope_name, (b, other, m), y),
    ensures
        pid != other || n != m ==> x@ != y@,
        a@ == b@ && pid == other && n == m ==> x@ == y@,
{
    if x@ == y@ {
        law_scope_names_differ(a@, pid, n, b@, other, m);
    }
}

/// An app is started by the command that launches it, in its scope where it has one,
/// and then once more without where that fails.
pub proof fn law_app_is_started_by_its_command<F: Fn(&str) -> bool>(
    entry: &AppEntry,
    terminal: &Option<String>,
    resolves: F,
    display: &str,
    token: &str,
    scope: Option<&str>,
    r: Option<Launch>,
)
    requires
        call_ensures(
            spawn_app::<F>,
            (entry, terminal, resolves, display, token, scope),
            r,
        ),
    ensures
        r matches Some(l) ==> (l.fallback is Some <==> scope is Some),
        r matches Some(l) ==> (scope is Some ==> l.first.program@ == "systemd-run"@),
        r matches Some(l) ==> text_of(l.first.cwd) == text_of(entry.path),
        !entry.terminal && entry.exec_line@.len() == 0 ==> (r is Some <==> entry.dbus_activatable),
        r matches Some(l) ==> (!entry.terminal && entry.exec_line@.len() == 0 && scope is None
            ==> l.first.program@ == "gio"@ && texts(l.first.args@) == seq![
            "launch"@,
            entry.desktop_file@,
        ]),
        r matches Some(l) ==> (!entry.terminal && entry.exec_line@.len() > 0 && scope is None ==> seq![
            l.first.program@,
        ] + texts(l.first.args@) == argv(
            entry.exec_line@,
            ContextView {
                icon: entry.icon@,
                name: entry.name@,
                desktop_file: entry.desktop_file@,
            },
        )),
{
    let c = choose|c: Option<LaunchView>| #[trigger]
        launched(entry@, text_of(*terminal), resolves, c) && match c {
            Some(command) => if command.argv.len() > 0 {
                r is Some && is_launch(r->0, command, display@, token@, unit_of(scope))
            } else {
                r is None
            },
            None => r is None,
        };
    if !entry.terminal {
        law_entry_is_launched_by_its_line(entry@, text_of(*terminal), resolves, c);
    }
    if c is Some {
        law_launch_has_a_program(entry@, text_of(*terminal), resolves, c);
        let words = (c->0).argv;
        if r is Some && scope is None {
            assert(seq![words[0]] + words.skip(1) =~= words);
            if words == seq!["gio"@, "launch"@, entry.desktop_file@] {
                assert(words.skip(1) =~= seq!["launch"@, entry.desktop_file@]);
            }
        }
    }
}

/// A bare line is started as it is split, without a scope; an empty line is not.
pub proof fn law_line_is_started_without_a_scope<F: Fn(&str) -> bool>(
    line: &str,
    terminal: &Option<String>,
    resolves: F,
    display: &str,
    token: &str,
    r: Option<Launch>,
)
    requires
        call_ensures(spawn_exec::<F>, (line, terminal, resolves, display, token), r),
    ensures
        line@.len() == 0 ==> r is None,
        r matches Some(l) ==> l.fallback is None && seq![l.first.program@] + texts(l.first.args@)
            == argv(
            line@,
            ContextView { icon: Seq::empty(), name: Seq::empty(), desktop_file: Seq::empty() },
        ),
        r matches Some(l) ==> l.first@.set.contains(("WAYLAND_DISPLAY"@, display@))
            && l.first@.set.contains(("XDG_ACTIVATION_TOKEN"@, token@)),
{
    let e = bare_entry(line@);
    let c = choose|c: Option<LaunchView>| #[trigger]
        launched(e, text_of(*terminal), resolves, c) && match c {
            Some(command) => if command.argv.len() > 0 {
                r is Some && is_launch(r->0, command, display@, token@, None)
            } else {
                r is None
            },
            None => r is None,
        };
    law_entry_is_launched_by_its_line(e, text_of(*terminal), resolves, c);
    if r is Some {
        let words = (c->0).argv;
        assert(seq![words[0]] + words.skip(1) =~= words);
        law_app_finds_its_display_and_token(c->0, display@, token@, None);
    }
}

} // verus!
