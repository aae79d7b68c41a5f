//! Publishing the display that clients connect to.
use vstd::prelude::*;

use crate::text::{copy, texts};

verus! {

/// A command that is run and waited for.
#[derive(Debug)]
pub struct Invocation {
    pub program: String,
    pub args: Vec<String>,
}

/// What a list of invocations holds.
pub open spec fn invocations(v: Seq<Invocation>) -> Seq<(Seq<char>, Seq<Seq<char>>)> {
    v.map_values(|i: Invocation| (i.program@, texts(i.args@)))
}

/// The commands that tell the service manager and the message bus which display
/// there is, so that services of the user find it. A shell that runs inside
/// another session tells no one: it would overwrite what that session said.
pub fn publish_wayland_display(import_to_systemd: bool) -> (out: Vec<Invocation>)
    ensures
        invocations(out@) == (if import_to_systemd {
            seq![
                ("systemctl"@, seq!["--user"@, "import-environment"@, "WAYLAND_DISPLAY"@]),
                ("dbus-update-activation-environment"@, seq!["--systemd"@, "WAYLAND_DISPLAY"@]),
            ]
        } else {
            Seq::empty()
        }),
{
    let mut out: Vec<Invocation> = Vec::new();
    if !import_to_systemd {
        proof {
            assert(invocations(out@) =~= Seq::empty());
        }
        return out;
    }
    let mut first: Vec<String> = Vec::new();
    first.push(copy("--user"));
    first.push(copy("import-environment"));
    first.push(copy("WAYLAND_DISPLAY"));
    let mut second: Vec<String> = Vec::new();
    second.push(copy("--systemd"));
    second.push(copy("WAYLAND_DISPLAY"));
    proof {
        assert(texts(first@) =~= seq!["--user"@, "import-environment"@, "WAYLAND_DISPLAY"@]);
        assert(texts(second@) =~= seq!["--systemd"@, "WAYLAND_DISPLAY"@]);
    }
    out.push(Invocation { program: copy("systemctl"), args: first });
    out.push(Invocation { program: copy("dbus-update-activation-environment"), args: second });
    proof {
        assert(invocations(out@) =~= seq![
            ("systemctl"@, seq!["--user"@, "import-environment"@, "WAYLAND_DISPLAY"@]),
            ("dbus-update-activation-environment"@, seq!["--systemd"@, "WAYLAND_DISPLAY"@]),
        ]);
    }
    out
}

/// A shell that owns the session hands the name of its display to the service
/// manager and to the message bus; one inside another session runs nothing.
pub proof fn law_display_is_made_known(import_to_systemd: bool, out: Vec<Invocation>, k: int)
    requires
        call_ensures(publish_wayland_display, (import_to_systemd,), out),
        0 <= k < out@.len(),
    ensures
        import_to_systemd,
        texts(out@[k].args@).last() == "WAYLAND_DISPLAY"@,
        k == 0 ==> out@[k].program@ == "systemctl"@ && texts(out@[k].args@)[0] == "--user"@,
        k == 1 ==> out@[k].program@ == "dbus-update-activation-environment"@,
        k < 2,
{
    let said = invocations(out@);
    assert(said.len() == out@.len());
    assert(said[k] == (out@[k].program@, texts(out@[k].args@)));
}

} // verus!
