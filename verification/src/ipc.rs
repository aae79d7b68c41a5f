//! Talking to a running shell over its control socket.
use vstd::prelude::*;

use crate::catalog::{join_path, path_join};
use crate::text::{
    chars_of, concat, copy, has_prefix, is_word, join, joined, law_joined_words_read_back, starts_with,
    text_of, texts, trim, trimmed, whole, words,
};

verus! {

/// Where the control socket is, given what the environment says of it: the path
/// that is named for it, the older name for the same, and the directory for what
/// lives as long as the session.
pub open spec fn socket_at(
    ipc_sock: Option<Seq<char>>,
    debug_sock: Option<Seq<char>>,
    runtime_dir: Option<Seq<char>>,
) -> Seq<char> {
    match ipc_sock {
        Some(p) => p,
        None => match debug_sock {
            Some(p) => p,
            None => path_join(
                match runtime_dir {
                    Some(dir) => dir,
                    None => "/tmp"@,
                },
                "springchick-ipc.sock"@,
            ),
        },
    }
}

/// Where the control socket is.
pub fn socket_path(
    ipc_sock: &Option<String>,
    debug_sock: &Option<String>,
    runtime_dir: &Option<String>,
) -> (out: String)
    ensures
        out@ == socket_at(text_of(*ipc_sock), text_of(*debug_sock), text_of(*runtime_dir)),
{
    match ipc_sock {
        Some(p) => {
            return copy(p.as_str());
        },
        None => {},
    }
    match debug_sock {
        Some(p) => {
            return copy(p.as_str());
        },
        None => {},
    }
    match runtime_dir {
        Some(dir) => join_path(dir.as_str(), "springchick-ipc.sock"),
        None => join_path("/tmp", "springchick-ipc.sock"),
    }
}

/// The line that asks for what `args` say, with its end. `None` when they say
/// nothing, which is a misuse.
pub fn request_line(args: &Vec<String>) -> (r: Option<String>)
    ensures
        match r {
            Some(line) => args@.len() > 0 && line@ == join(texts(args@), " "@) + "\n"@,
            None => args@.len() == 0,
        },
{
    if args.len() == 0 {
        return None;
    }
    Some(concat(joined(args, " ").as_str(), "\n"))
}

/// How the client ends.
#[derive(Clone, Copy, Debug, PartialEq, Eq, Structural)]
pub enum Exit {
    Success,
    /// The shell refused, or could not be reached.
    Failure,
    /// There was nothing to ask.
    Misuse,
}

impl Exit {
    /// The number that the process ends with.
    pub fn code(&self) -> (r: u8)
        ensures
            r == match *self {
                Exit::Success => 0u8,
                Exit::Failure => 1u8,
                Exit::Misuse => 2u8,
            },
    {
        match self {
            Exit::Success => 0,
            Exit::Failure => 1,
            Exit::Misuse => 2,
        }
    }
}

/// What is printed of a reply, and how the client ends.
pub open spec fn verdict(reply: Seq<char>) -> Exit {
    if starts_with(trim(reply), "ok"@) {
        Exit::Success
    } else {
        Exit::Failure
    }
}

/// A reply as it is printed, and how the client ends because of it. An empty one
/// is not printed.
pub fn read_reply(reply: &str) -> (r: (Option<String>, Exit))
    ensures
        match r.0 {
            Some(shown) => trim(reply@).len() > 0 && shown@ == trim(reply@),
            None => trim(reply@).len() == 0,
        },
        r.1 == verdict(reply@),
{
    let t: Vec<char> = trimmed(&chars_of(reply));
    let exit: Exit = if has_prefix(&t, "ok") {
        Exit::Success
    } else {
        Exit::Failure
    };
    if t.len() == 0 {
        (None, exit)
    } else {
        (Some(whole(&t)), exit)
    }
}

/// What is asked for reaches the shell word by word, as long as no word is empty
/// or holds white space.
pub proof fn law_request_reaches_the_shell(args: Seq<Seq<char>>)
    requires
        forall|i: int| 0 <= i < args.len() ==> is_word(#[trigger] args[i]),
    ensures
        words(join(args, " "@) + "\n"@) == args,
{
    law_joined_words_read_back(args);
}

/// The path that is named for the socket goes before its older name, and both go
/// before the directory of the session. Without any of them it is a temporary one.
pub proof fn law_named_socket_goes_first(
    ipc_sock: Option<Seq<char>>,
    debug_sock: Option<Seq<char>>,
    runtime_dir: Option<Seq<char>>,
)
    ensures
        ({
            let at = socket_at(ipc_sock, debug_sock, runtime_dir);
            &&& ipc_sock is Some ==> at == ipc_sock->0
            &&& ipc_sock is None && debug_sock is Some ==> at == debug_sock->0
            &&& ipc_sock is None && debug_sock is None && runtime_dir is Some ==> at == path_join(
                runtime_dir->0,
                "springchick-ipc.sock"@,
            )
            &&& ipc_sock is None && debug_sock is None && runtime_dir is None ==> at == path_join(
                "/tmp"@,
                "springchick-ipc.sock"@,
            )
        }),
{
}

/// There is a request exactly when something is asked, and it is one line.
pub proof fn law_request_is_one_line(args: &Vec<String>, r: Option<String>)
    requires
        call_ensures(request_line, (args,), r),
    ensures
        r is Some <==> args@.len() > 0,
        r is Some ==> r->0@.last() == '\n' && r->0@.drop_last() == join(texts(args@), " "@),
{
    reveal_strlit("\n");
    if r is Some {
        assert(r->0@.drop_last() =~= join(texts(args@), " "@));
    }
}

/// The client ends well exactly when the shell answered that it is well, whatever
/// follows and whatever white space stands around; it shows what the shell said.
pub proof fn law_client_ends_as_the_shell_answered(
    reply: &str,
    r: (Option<String>, Exit),
    rest: Seq<char>,
)
    requires
        call_ensures(read_reply, (reply,), r),
    ensures
        trim(reply@) == "ok"@ + rest ==> r.1 == Exit::Success,
        r.1 == Exit::Success ==> starts_with(trim(reply@), "ok"@),
        r.1 != Exit::Misuse,
        r.0 is Some <==> trim(reply@).len() > 0,
        r.0 is Some ==> r.0->0@ == trim(reply@),
{
    if trim(reply@) == "ok"@ + rest {
        assert(("ok"@ + rest).take("ok"@.len() as int) =~= "ok"@);
    }
}

/// A process that ends with zero did well, and the three ends are told apart.
pub proof fn law_exit_codes_tell_the_ends_apart(e: &Exit, r: u8)
    requires
        call_ensures(Exit::code, (e,), r),
    ensures
        r == 0 <==> *e == Exit::Success,
        r == 1 <==> *e == Exit::Failure,
        r == 2 <==> *e == Exit::Misuse,
{
}

/// The socket is the one that the environment names, the one of this interface
/// before that of debugging; else one of a fixed name in the directory for such
/// files.
pub proof fn law_socket_is_the_named_one(
    ipc_sock: &Option<String>,
    debug_sock: &Option<String>,
    runtime_dir: &Option<String>,
    out: String,
)
    requires
        call_ensures(socket_path, (ipc_sock, debug_sock, runtime_dir), out),
    ensures
        *ipc_sock matches Some(p) ==> out@ == p@,
        *ipc_sock is None ==> (*debug_sock matches Some(p) ==> out@ == p@),
        *ipc_sock is None && *debug_sock is None ==> (*runtime_dir matches Some(d) ==> out@ == path_join(
            d@,
            "springchick-ipc.sock"@,
        )),
        *ipc_sock is None && *debug_sock is None && *runtime_dir is None ==> out@ == path_join(
            "/tmp"@,
            "springchick-ipc.sock"@,
        ),
{
    law_named_socket_goes_first(text_of(*ipc_sock), text_of(*debug_sock), text_of(*runtime_dir));
}

} // verus!
