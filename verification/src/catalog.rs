//! The app catalog: desktop entries, and the command line that launches one.
use vstd::prelude::*;

use crate::exec_line::{argv, parse_exec_with, ContextView, ExecContext};
use crate::text::{
    answers, chars_of, concat, concat3, copy, copy_opt, cut, ends_with, find, has_prefix,
    has_suffix, is_listed, is_space, is_text, join, law_joined_pieces_split_back,
    lemma_found_behind, lines, lines_from, lines_of, pieces, rows, same, split, split_from,
    split_once, starts_with, text_of, texts, total, trim, trim_start, trimmed, whole,
    without_return,
};

verus! {

// ---------------------------------------------------------------------------
// Paths
// ---------------------------------------------------------------------------

/// `name` inside `dir`.
pub open spec fn path_join(dir: Seq<char>, name: Seq<char>) -> Seq<char> {
    if name.len() > 0 && name[0] == '/' {
        name
    } else if dir.len() == 0 || dir.last() == '/' {
        dir + name
    } else {
        dir + "/"@ + name
    }
}

/// `name` inside `dir`.
pub fn join_path(dir: &str, name: &str) -> (r: String)
    ensures
        r@ == path_join(dir@, name@),
{
    let d: Vec<char> = chars_of(dir);
    let n: Vec<char> = chars_of(name);
    if n.len() > 0 && n[0] == '/' {
        copy(name)
    } else if d.len() == 0 || d[d.len() - 1] == '/' {
        concat(dir, name)
    } else {
        concat3(dir, "/", name)
    }
}

/// Whether a piece of a path names nothing: it is empty, or the directory
/// itself.
pub open spec fn is_blank_piece(p: Seq<char>) -> bool {
    p.len() == 0 || p == "."@
}

/// The last piece of a path that names something.
pub open spec fn last_piece(ps: Seq<Seq<char>>) -> Option<Seq<char>>
    decreases ps.len(),
{
    if ps.len() == 0 {
        None
    } else if is_blank_piece(ps.last()) {
        last_piece(ps.drop_last())
    } else {
        Some(ps.last())
    }
}

/// The file that a path names: its last piece, unless that leads upwards.
pub open spec fn file_name(path: Seq<char>) -> Option<Seq<char>> {
    match last_piece(split(path, '/')) {
        Some(p) => if p == ".."@ {
            None
        } else {
            Some(p)
        },
        None => None,
    }
}

/// Where the last dot stands, if one stands behind the first character.
pub open spec fn last_dot(name: Seq<char>, end: int) -> Option<int>
    decreases end,
{
    if end <= 1 || end > name.len() {
        None
    } else if name[end - 1] == '.' {
        Some(end - 1)
    } else {
        last_dot(name, end - 1)
    }
}

/// The file name without its extension.
pub open spec fn file_stem(path: Seq<char>) -> Option<Seq<char>> {
    match file_name(path) {
        Some(name) => match last_dot(name, name.len() as int) {
            Some(i) => Some(name.take(i)),
            None => Some(name),
        },
        None => None,
    }
}

/// The extension of the file name.
pub open spec fn extension(path: Seq<char>) -> Option<Seq<char>> {
    match file_name(path) {
        Some(name) => match last_dot(name, name.len() as int) {
            Some(i) => Some(name.skip(i + 1)),
            None => None,
        },
        None => None,
    }
}

fn name_of_file(path: &str) -> (r: Option<Vec<char>>)
    ensures
        match r {
            Some(v) => file_name(path@) == Some(v@),
            None => file_name(path@) is None,
        },
{
    let ps: Vec<Vec<char>> = pieces(&chars_of(path), '/');
    let mut i: usize = ps.len();
    proof {
        assert(rows(ps@).take(ps@.len() as int) =~= rows(ps@));
    }
    while i > 0
        invariant
            i <= ps.len(),
            rows(ps@) == split(path@, '/'),
            last_piece(rows(ps@)) == last_piece(rows(ps@).take(i as int)),
        decreases i,
    {
        proof {
            let here = rows(ps@).take(i as int);
            assert(here.last() == ps@[i - 1]@);
            assert(here.drop_last() =~= rows(ps@).take(i - 1));
        }
        let p: &Vec<char> = &ps[i - 1];
        if !(p.len() == 0 || is_text(p, ".")) {
            if is_text(p, "..") {
                return None;
            }
            return Some(crate::text::part(p, 0, p.len()));
        }
        i = i - 1;
    }
    None
}

fn dot_of(name: &Vec<char>) -> (r: Option<usize>)
    ensures
        match r {
            Some(i) => i < name.len() && last_dot(name@, name@.len() as int) == Some(i as int),
            None => last_dot(name@, name@.len() as int) is None,
        },
{
    let mut i: usize = name.len();
    while i > 1
        invariant
            i <= name.len(),
            last_dot(name@, name@.len() as int) == last_dot(name@, i as int),
        decreases i,
    {
        if name[i - 1] == '.' {
            return Some(i - 1);
        }
        i = i - 1;
    }
    None
}

/// The file name without its extension.
pub fn stem_of(path: &str) -> (r: Option<String>)
    ensures
        text_of(r) == file_stem(path@),
{
    match name_of_file(path) {
        Some(name) => match dot_of(&name) {
            Some(i) => {
                proof {
                    assert(name@.take(i as int) =~= name@.subrange(0, i as int));
                }
                Some(crate::text::string_of(&name, 0, i))
            },
            None => Some(whole(&name)),
        },
        None => None,
    }
}

/// Whether a path names a desktop file.
pub fn is_desktop_file(path: &str) -> (r: bool)
    ensures
        r == (extension(path@) == Some("desktop"@)),
{
    match name_of_file(path) {
        Some(name) => match dot_of(&name) {
            Some(i) => {
                proof {
                    assert(name@.skip(i + 1) =~= name@.subrange(i + 1, name@.len() as int));
                }
                is_text(&crate::text::part(&name, i + 1, name.len()), "desktop")
            },
            None => false,
        },
        None => false,
    }
}

/// The pieces of `s` between separators that are not empty.
pub open spec fn listed(s: Seq<char>, sep: char) -> Seq<Seq<char>> {
    split(s, sep).filter(|p: Seq<char>| p.len() > 0)
}

/// The pieces of `s` between separators that are not empty.
pub fn list_of(s: &str, sep: char) -> (r: Vec<String>)
    ensures
        texts(r@) == listed(s@, sep),
{
    let ps: Vec<Vec<char>> = pieces(&chars_of(s), sep);
    let ghost keep = |p: Seq<char>| p.len() > 0;
    let mut out: Vec<String> = Vec::new();
    let mut i: usize = 0;
    proof {
        assert(rows(ps@).take(0) =~= Seq::<Seq<char>>::empty());
        reveal(Seq::filter);
    }
    while i < ps.len()
        invariant
            i <= ps.len(),
            keep == (|p: Seq<char>| p.len() > 0),
            texts(out@) == rows(ps@).take(i as int).filter(keep),
        decreases ps.len() - i,
    {
        let ghost before = out@;
        proof {
            reveal(Seq::filter);
            let next = rows(ps@).take(i + 1);
            assert(next.drop_last() =~= rows(ps@).take(i as int));
            assert(next.last() == ps@[i as int]@);
        }
        if ps[i].len() > 0 {
            out.push(whole(&ps[i]));
            proof {
                assert(texts(out@) =~= texts(before).push(ps@[i as int]@));
            }
        }
        i = i + 1;
    }
    proof {
        assert(rows(ps@).take(ps@.len() as int) =~= rows(ps@));
    }
    out
}

/// The directories that hold shared data, highest precedence first.
pub open spec fn data_dirs(
    data_home: Option<Seq<char>>,
    home: Option<Seq<char>>,
    dirs: Option<Seq<char>>,
) -> Seq<Seq<char>> {
    let first: Seq<Seq<char>> = match data_home {
        Some(d) => seq![d],
        None => match home {
            Some(h) => seq![path_join(h, ".local/share"@)],
            None => Seq::empty(),
        },
    };
    let rest = match dirs {
        Some(d) => if d.len() > 0 {
            d
        } else {
            "/usr/local/share:/usr/share"@
        },
        None => "/usr/local/share:/usr/share"@,
    };
    first + listed(rest, ':')
}

/// The directories that hold shared data, highest precedence first:
/// `$XDG_DATA_HOME` (default `~/.local/share`), then each of `$XDG_DATA_DIRS`
/// (default `/usr/local/share:/usr/share`). Each variable is given as it is set.
pub fn xdg_data_dirs(
    data_home: &Option<String>,
    home: &Option<String>,
    dirs: &Option<String>,
) -> (r: Vec<String>)
    ensures
        texts(r@) == data_dirs(text_of(*data_home), text_of(*home), text_of(*dirs)),
{
    let mut out: Vec<String> = Vec::new();
    match data_home {
        Some(d) => out.push(copy(d.as_str())),
        None => match home {
            Some(h) => out.push(join_path(h.as_str(), ".local/share")),
            None => {},
        },
    }
    let mut rest: Vec<String> = match dirs {
        Some(d) => {
            if !d.as_str().is_empty() {
                list_of(d.as_str(), ':')
            } else {
                list_of("/usr/local/share:/usr/share", ':')
            }
        },
        None => list_of("/usr/local/share:/usr/share", ':'),
    };
    let ghost a = out@;
    let ghost b = rest@;
    out.append(&mut rest);
    proof {
        assert(texts(out@) =~= texts(a) + texts(b));
        if data_home is Some {
            assert(texts(a) =~= seq![data_home->0@]);
        } else if home is Some {
            assert(texts(a) =~= seq![path_join(home->0@, ".local/share"@)]);
        } else {
            assert(texts(a) =~= Seq::<Seq<char>>::empty());
        }
    }
    out
}

// ---------------------------------------------------------------------------
// Desktop entries
// ---------------------------------------------------------------------------

/// An installed app, as its desktop entry describes it.
#[derive(Debug, PartialEq)]
pub struct AppEntry {
    /// The stem of the file name, such as `org.gnome.Maps`.
    pub id: String,
    pub name: String,
    /// The `Exec` line as it is written.
    pub exec_line: String,
    /// The name of an icon, or an absolute path.
    pub icon: String,
    /// The app is a command-line program and runs in a terminal emulator.
    pub terminal: bool,
    /// The directory to run the program in.
    pub path: Option<String>,
    /// The app may be launched over D-Bus, and may omit `Exec`.
    pub dbus_activatable: bool,
    /// Where the entry was read from.
    pub desktop_file: String,
    /// The categories that the entry declares.
    pub categories: Vec<String>,
}

/// What an [`AppEntry`] holds.
pub struct EntryView {
    pub id: Seq<char>,
    pub name: Seq<char>,
    pub exec_line: Seq<char>,
    pub icon: Seq<char>,
    pub terminal: bool,
    pub path: Option<Seq<char>>,
    pub dbus_activatable: bool,
    pub desktop_file: Seq<char>,
    pub categories: Seq<Seq<char>>,
}

impl View for AppEntry {
    type V = EntryView;

    open spec fn view(&self) -> EntryView {
        EntryView {
            id: self.id@,
            name: self.name@,
            exec_line: self.exec_line@,
            icon: self.icon@,
            terminal: self.terminal,
            path: text_of(self.path),
            dbus_activatable: self.dbus_activatable,
            desktop_file: self.desktop_file@,
            categories: texts(self.categories@),
        }
    }
}

impl Default for AppEntry {
    fn default() -> (r: Self)
        ensures
            r@.id.len() == 0 && r@.name.len() == 0 && r@.exec_line.len() == 0 && r@.icon.len() == 0,
            !r.terminal && !r.dbus_activatable && r.path is None,
            r@.desktop_file.len() == 0 && r@.categories.len() == 0,
    {
        AppEntry {
            id: String::new(),
            name: String::new(),
            exec_line: String::new(),
            icon: String::new(),
            terminal: false,
            path: None,
            dbus_activatable: false,
            desktop_file: String::new(),
            categories: Vec::new(),
        }
    }
}

/// An optional entry, as what it holds.
pub open spec fn entry_of(e: Option<AppEntry>) -> Option<EntryView> {
    match e {
        Some(a) => Some(a@),
        None => None,
    }
}

/// The parts of the environment that decide which entries are shown and under
/// which name.
#[derive(Debug)]
pub struct DesktopEnv {
    /// Locale suffixes to accept, best match first.
    pub locales: Vec<String>,
    /// The names of the current desktop.
    pub desktops: Vec<String>,
}

impl Default for DesktopEnv {
    fn default() -> (r: Self)
        ensures
            r.locales@.len() == 0 && r.desktops@.len() == 0,
    {
        DesktopEnv { locales: Vec::new(), desktops: Vec::new() }
    }
}

/// The value of the first variable that is set.
pub open spec fn first_set(
    a: Option<Seq<char>>,
    b: Option<Seq<char>>,
    c: Option<Seq<char>>,
) -> Option<Seq<char>> {
    if a is Some {
        a
    } else if b is Some {
        b
    } else {
        c
    }
}

/// The locale that the environment names; empty when it names none, or the
/// plain one.
pub open spec fn locale_named(v: Option<Seq<char>>) -> Seq<char> {
    match v {
        Some(l) => if l == "C"@ || l == "POSIX"@ {
            Seq::empty()
        } else {
            l
        },
        None => Seq::empty(),
    }
}

/// The names in `$XDG_CURRENT_DESKTOP`.
pub open spec fn desktops_named(v: Option<Seq<char>>) -> Seq<Seq<char>> {
    match v {
        Some(d) => listed(d, ':'),
        None => Seq::empty(),
    }
}

impl DesktopEnv {
    /// Read the environment: the first of `$LC_ALL`, `$LC_MESSAGES` and `$LANG`
    /// that is set names the locale.
    pub fn from_env<F: Fn(&str) -> Option<String>>(var: F) -> (r: Self)
        requires
            total(var),
        ensures
            exists|all: Option<String>, messages: Option<String>, lang: Option<String>, desktops: Option<String>|
                {
                    &&& #[trigger] answers(var, "LC_ALL"@, all)
                    &&& #[trigger] answers(var, "LC_MESSAGES"@, messages)
                    &&& #[trigger] answers(var, "LANG"@, lang)
                    &&& #[trigger] answers(var, "XDG_CURRENT_DESKTOP"@, desktops)
                    &&& texts(r.locales@) == candidates(
                        locale_named(first_set(text_of(all), text_of(messages), text_of(lang))),
                    )
                    &&& texts(r.desktops@) == desktops_named(text_of(desktops))
                },
    {
        let all: Option<String> = var("LC_ALL");
        let messages: Option<String> = var("LC_MESSAGES");
        let lang: Option<String> = var("LANG");
        let desktops: Option<String> = var("XDG_CURRENT_DESKTOP");
        let named: Option<String> = if all.is_some() {
            copy_opt(&all)
        } else if messages.is_some() {
            copy_opt(&messages)
        } else {
            copy_opt(&lang)
        };
        let raw: String = match named {
            Some(l) => {
                if same(l.as_str(), "C") || same(l.as_str(), "POSIX") {
                    String::new()
                } else {
                    l
                }
            },
            None => String::new(),
        };
        let names: Vec<String> = match &desktops {
            Some(d) => list_of(d.as_str(), ':'),
            None => Vec::new(),
        };
        proof {
            assert(answers(var, "LC_ALL"@, all));
            assert(answers(var, "LC_MESSAGES"@, messages));
            assert(answers(var, "LANG"@, lang));
            assert(answers(var, "XDG_CURRENT_DESKTOP"@, desktops));
            if desktops is None {
                assert(texts(names@) =~= Seq::<Seq<char>>::empty());
            }
        }
        DesktopEnv { locales: locale_candidates(raw.as_str()), desktops: names }
    }
}

/// The text before the first `c`, or all of it.
pub open spec fn up_to(s: Seq<char>, c: char) -> Seq<char> {
    s.take(find(s, c))
}

/// The locales to accept for `raw`, best match first: language and country with
/// the modifier, language and country, language with the modifier, language.
/// The encoding takes no part.
pub open spec fn candidates(raw: Seq<char>) -> Seq<Seq<char>> {
    let name = up_to(raw, '.');
    let base = up_to(name, '@');
    let lang = up_to(base, '_');
    let with_country: Seq<Seq<char>> = if base == lang {
        Seq::empty()
    } else {
        seq![base]
    };
    if base.len() == 0 {
        Seq::empty()
    } else {
        match split_once(name, '@') {
            Some((_, modifier)) => with_country.map_values(
                |b: Seq<char>| b + "@"@ + modifier,
            ) + with_country + seq![lang + "@"@ + modifier, lang],
            None => with_country + seq![lang],
        }
    }
}

fn before_char(cs: &Vec<char>, c: char) -> (r: Vec<char>)
    ensures
        r@ == up_to(cs@, c),
{
    let i: usize = crate::text::find_from(cs, 0, c);
    proof {
        assert(cs@.skip(0) =~= cs@);
        assert(cs@.take(i as int) =~= cs@.subrange(0, i as int));
    }
    crate::text::part(cs, 0, i)
}

/// The locales to accept for `raw`, best match first.
pub fn locale_candidates(raw: &str) -> (r: Vec<String>)
    ensures
        texts(r@) == candidates(raw@),
{
    let name: Vec<char> = before_char(&chars_of(raw), '.');
    let base: Vec<char> = before_char(&name, '@');
    let mut out: Vec<String> = Vec::new();
    if base.len() == 0 {
        proof {
            assert(texts(out@) =~= Seq::<Seq<char>>::empty());
        }
        return out;
    }
    let lang: Vec<char> = before_char(&base, '_');
    let has_country: bool = !crate::text::same_chars(&base, &lang);
    let b: String = whole(&base);
    let l: String = whole(&lang);
    match cut(&name, '@') {
        Some((_, modifier)) => {
            let m: String = whole(&modifier);
            let ghost f = |x: Seq<char>| x + "@"@ + modifier@;
            if has_country {
                out.push(concat3(b.as_str(), "@", m.as_str()));
                out.push(copy(b.as_str()));
            }
            out.push(concat3(l.as_str(), "@", m.as_str()));
            out.push(l);
            proof {
                if has_country {
                    assert(seq![base@].map_values(f) =~= seq![base@ + "@"@ + modifier@]);
                    assert(texts(out@) =~= seq![base@].map_values(f) + seq![base@] + seq![
                        lang@ + "@"@ + modifier@,
                        lang@,
                    ]);
                } else {
                    let none = Seq::<Seq<char>>::empty();
                    assert(texts(out@) =~= none.map_values(f) + none + seq![
                        lang@ + "@"@ + modifier@,
                        lang@,
                    ]);
                }
            }
        },
        None => {
            if has_country {
                out.push(copy(b.as_str()));
            }
            out.push(l);
            proof {
                if has_country {
                    assert(texts(out@) =~= seq![base@] + seq![lang@]);
                } else {
                    assert(texts(out@) =~= Seq::<Seq<char>>::empty() + seq![lang@]);
                }
            }
        },
    }
    out
}

/// A key without the locale in brackets behind it, and that locale.
pub open spec fn key_and_locale(key: Seq<char>) -> (Seq<char>, Option<Seq<char>>) {
    match split_once(key, '[') {
        Some((k, rest)) => (
            k,
            if rest.len() > 0 && rest.last() == ']' {
                Some(rest.drop_last())
            } else {
                None
            },
        ),
        None => (key, None),
    }
}

/// Split `Name[nb_NO]` into `Name` and `nb_NO`.
pub fn split_locale(key: &Vec<char>) -> (r: (Vec<char>, Option<Vec<char>>))
    ensures
        r.0@ == key_and_locale(key@).0,
        match r.1 {
            Some(l) => key_and_locale(key@).1 == Some(l@),
            None => key_and_locale(key@).1 is None,
        },
{
    match cut(key, '[') {
        Some((k, rest)) => {
            if rest.len() > 0 && rest[rest.len() - 1] == ']' {
                proof {
                    assert(rest@.drop_last() =~= rest@.subrange(0, rest@.len() - 1));
                }
                let l: Vec<char> = crate::text::part(&rest, 0, rest.len() - 1);
                (k, Some(l))
            } else {
                (k, None)
            }
        },
        None => {
            proof {
                assert(key@.subrange(0, key@.len() as int) =~= key@);
            }
            (crate::text::part(key, 0, key.len()), None)
        },
    }
}

/// What the escape `\c` stands for. An escape that is not defined keeps both
/// its characters.
pub open spec fn escape_meaning(c: char) -> Seq<char> {
    if c == 's' {
        seq![' ']
    } else if c == 'n' {
        seq!['\n']
    } else if c == 't' {
        seq!['\t']
    } else if c == 'r' {
        seq!['\r']
    } else if c == '\\' {
        seq!['\\']
    } else {
        seq!['\\', c]
    }
}

/// A value with its escapes resolved.
pub open spec fn unescaped(v: Seq<char>) -> Seq<char>
    decreases v.len(),
{
    if v.len() == 0 {
        v
    } else if v[0] != '\\' || v.len() == 1 {
        seq![v[0]] + unescaped(v.skip(1))
    } else {
        escape_meaning(v[1]) + unescaped(v.skip(2))
    }
}

/// Resolve the escapes of a value: `\s` is a space, `\n`, `\t`, `\r` and `\\`
/// are as usual.
pub fn unescape_value(value: &Vec<char>) -> (r: Vec<char>)
    ensures
        r@ == unescaped(value@),
{
    let mut out: Vec<char> = Vec::new();
    let mut i: usize = 0;
    proof {
        assert(value@.skip(0) =~= value@);
        assert(out@ + unescaped(value@) =~= unescaped(value@));
    }
    while i < value.len()
        invariant
            i <= value.len(),
            unescaped(value@) == out@ + unescaped(value@.skip(i as int)),
        decreases value.len() - i,
    {
        let c: char = value[i];
        let ghost here = value@.skip(i as int);
        let ghost before = out@;
        proof {
            assert(here[0] == c);
            assert(here.skip(1) =~= value@.skip(i + 1));
            if here.len() > 1 {
                assert(here[1] == value@[i + 1]);
                assert(here.skip(2) =~= value@.skip(i + 2));
            }
        }
        if c != '\\' || value.len() - i == 1 {
            out.push(c);
            i = i + 1;
            proof {
                assert(before + (seq![c] + unescaped(here.skip(1))) =~= out@ + unescaped(
                    here.skip(1),
                ));
            }
        } else {
            let d: char = value[i + 1];
            if d == 's' {
                out.push(' ');
            } else if d == 'n' {
                out.push('\n');
            } else if d == 't' {
                out.push('\t');
            } else if d == 'r' {
                out.push('\r');
            } else if d == '\\' {
                out.push('\\');
            } else {
                out.push('\\');
                out.push(d);
            }
            i = i + 2;
            proof {
                assert(out@ =~= before + escape_meaning(d));
                assert(before + (escape_meaning(d) + unescaped(here.skip(2))) =~= out@ + unescaped(
                    here.skip(2),
                ));
            }
        }
    }
    proof {
        assert(value@.skip(i as int).len() == 0);
        assert(out@ + Seq::<char>::empty() =~= out@);
    }
    out
}

/// A value as a desktop entry writes it. A space may stand as it is or be written
/// as an escape, which keeps it where a value begins or ends: `hard` tells for
/// each character whether it is escaped if it is a space.
pub open spec fn value_escaped(v: Seq<char>, hard: Seq<bool>) -> Seq<char>
    decreases v.len(),
{
    if v.len() == 0 {
        v
    } else {
        (if v[0] == '\\' {
            seq!['\\', '\\']
        } else if v[0] == '\n' {
            seq!['\\', 'n']
        } else if v[0] == '\t' {
            seq!['\\', 't']
        } else if v[0] == '\r' {
            seq!['\\', 'r']
        } else if v[0] == ' ' && hard[0] {
            seq!['\\', 's']
        } else {
            seq![v[0]]
        }) + value_escaped(v.skip(1), hard.skip(1))
    }
}

/// A value that is escaped reads back as it was, whichever of its spaces are.
pub proof fn law_escaped_value_reads_back(v: Seq<char>, hard: Seq<bool>)
    requires
        hard.len() == v.len(),
    ensures
        unescaped(value_escaped(v, hard)) == v,
    decreases v.len(),
{
    if v.len() > 0 {
        let rest = v.skip(1);
        let later = hard.skip(1);
        law_escaped_value_reads_back(rest, later);
        let s = value_escaped(v, hard);
        assert(seq![v[0]] + rest =~= v);
        if v[0] == '\\' || v[0] == '\n' || v[0] == '\t' || v[0] == '\r' || (v[0] == ' ' && hard[0]) {
            assert(s.skip(2) =~= value_escaped(rest, later));
            assert(unescaped(s) =~= seq![v[0]] + rest);
        } else {
            assert(s.skip(1) =~= value_escaped(rest, later));
            assert(unescaped(s) =~= seq![v[0]] + rest);
        }
    }
}

/// One `key=value` line of an entry.
#[derive(Debug)]
pub struct Pair {
    pub key: Vec<char>,
    pub locale: Option<Vec<char>>,
    pub value: Vec<char>,
}

/// What a [`Pair`] holds.
pub struct PairView {
    pub key: Seq<char>,
    pub locale: Option<Seq<char>>,
    pub value: Seq<char>,
}

impl View for Pair {
    type V = PairView;

    open spec fn view(&self) -> PairView {
        PairView {
            key: self.key@,
            locale: match self.locale {
                Some(l) => Some(l@),
                None => None,
            },
            value: self.value@,
        }
    }
}

/// What a list of pairs holds.
pub open spec fn pair_views(ps: Seq<Pair>) -> Seq<PairView> {
    ps.map_values(|p: Pair| p@)
}

/// The pair that a line writes.
pub open spec fn pair_of(line: Seq<char>) -> Option<PairView> {
    match split_once(line, '=') {
        Some((k, v)) => Some(
            PairView {
                key: key_and_locale(trim(k)).0,
                locale: key_and_locale(trim(k)).1,
                value: unescaped(trim(v)),
            },
        ),
        None => None,
    }
}

/// The pairs of the group `[Desktop Entry]` in the lines `ls`; `inside` tells
/// whether the first of them lies in that group. Comments are passed over.
pub open spec fn pairs_from(ls: Seq<Seq<char>>, inside: bool) -> Seq<PairView>
    decreases ls.len(),
{
    if ls.len() == 0 {
        Seq::empty()
    } else {
        let line = trim(ls[0]);
        if starts_with(line, "["@) {
            pairs_from(ls.skip(1), line == "[Desktop Entry]"@)
        } else if inside && !starts_with(line, "#"@) && pair_of(line) is Some {
            seq![pair_of(line)->0] + pairs_from(ls.skip(1), inside)
        } else {
            pairs_from(ls.skip(1), inside)
        }
    }
}

/// The pairs of a desktop file.
pub open spec fn pairs(contents: Seq<char>) -> Seq<PairView> {
    pairs_from(lines(contents), false)
}

/// The pairs of a desktop file.
pub fn pairs_of(contents: &str) -> (out: Vec<Pair>)
    ensures
        pair_views(out@) == pairs(contents@),
{
    let ls: Vec<Vec<char>> = lines_of(&chars_of(contents));
    let mut out: Vec<Pair> = Vec::new();
    let mut inside: bool = false;
    let mut i: usize = 0;
    proof {
        assert(rows(ls@).skip(0) =~= rows(ls@));
        assert(pair_views(out@) + pairs(contents@) =~= pairs(contents@));
    }
    while i < ls.len()
        invariant
            i <= ls.len(),
            pairs(contents@) == pair_views(out@) + pairs_from(rows(ls@).skip(i as int), inside),
        decreases ls.len() - i,
    {
        let ghost here = rows(ls@).skip(i as int);
        let ghost before = out@;
        let line: Vec<char> = trimmed(&ls[i]);
        proof {
            assert(here[0] == ls@[i as int]@);
            assert(here.skip(1) =~= rows(ls@).skip(i + 1));
        }
        if has_prefix(&line, "[") {
            inside = is_text(&line, "[Desktop Entry]");
        } else if inside && !has_prefix(&line, "#") {
            match cut(&line, '=') {
                Some((k, v)) => {
                    let (key, locale) = split_locale(&trimmed(&k));
                    let value: Vec<char> = unescape_value(&trimmed(&v));
                    out.push(Pair { key, locale, value });
                    proof {
                        assert(pair_views(out@) =~= pair_views(before).push(pair_of(line@)->0));
                        assert(pair_views(before) + (seq![pair_of(line@)->0] + pairs_from(
                            here.skip(1),
                            inside,
                        )) =~= pair_views(out@) + pairs_from(here.skip(1), inside));
                    }
                },
                None => {},
            }
        }
        i = i + 1;
    }
    proof {
        assert(rows(ls@).skip(i as int).len() == 0);
        assert(pair_views(out@) + Seq::<PairView>::empty() =~= pair_views(out@));
    }
    out
}

/// The value of the last pair with the key `key`.
pub open spec fn last_value(ps: Seq<PairView>, key: Seq<char>) -> Option<Seq<char>>
    decreases ps.len(),
{
    if ps.len() == 0 {
        None
    } else if ps.last().key == key {
        Some(ps.last().value)
    } else {
        last_value(ps.drop_last(), key)
    }
}

/// Whether a key was last set to `true`.
pub open spec fn is_true(ps: Seq<PairView>, key: Seq<char>) -> bool {
    last_value(ps, key) == Some("true"@)
}

/// Where `l` first stands among `locales`.
pub open spec fn place(locales: Seq<Seq<char>>, l: Seq<char>) -> Option<int>
    decreases locales.len(),
{
    if locales.len() == 0 {
        None
    } else if locales[0] == l {
        Some(0)
    } else {
        match place(locales.skip(1), l) {
            Some(i) => Some(i + 1),
            None => None,
        }
    }
}

/// How well a name fits: the place of its locale, or behind all places when it
/// has no locale. A locale that is not accepted does not fit at all.
pub open spec fn fit(locales: Seq<Seq<char>>, locale: Option<Seq<char>>) -> Option<int> {
    match locale {
        Some(l) => place(locales, l),
        None => Some(locales.len() as int),
    }
}

/// The name that fits best, and how well; the first one of those that fit
/// equally well.
pub open spec fn best_name(ps: Seq<PairView>, locales: Seq<Seq<char>>) -> Option<(int, Seq<char>)>
    decreases ps.len(),
{
    if ps.len() == 0 {
        None
    } else {
        let so_far = best_name(ps.drop_last(), locales);
        let p = ps.last();
        if p.key == "Name"@ && fit(locales, p.locale) is Some && (so_far is None || fit(
            locales,
            p.locale,
        )->0 < (so_far->0).0) {
            Some((fit(locales, p.locale)->0, p.value))
        } else {
            so_far
        }
    }
}

/// Whether one of the names in `list` is a name of the current desktop.
pub open spec fn names_desktop(list: Seq<char>, current: Seq<Seq<char>>) -> bool {
    exists|i: int| 0 <= i < listed(list, ';').len() && current.contains(#[trigger] listed(list, ';')[i])
}

/// Whether an entry is shown on this desktop. `OnlyShowIn` goes before
/// `NotShowIn`.
pub open spec fn shown(
    only: Option<Seq<char>>,
    not: Option<Seq<char>>,
    current: Seq<Seq<char>>,
) -> bool {
    if only is Some {
        names_desktop(only->0, current)
    } else if not is Some {
        !names_desktop(not->0, current)
    } else {
        true
    }
}

/// The entry that the pairs of the file at `path` describe, unless it is not to
/// be shown. Whether the program that it tests for is there is another matter.
pub open spec fn described(
    path: Seq<char>,
    ps: Seq<PairView>,
    locales: Seq<Seq<char>>,
    desktops: Seq<Seq<char>>,
) -> Option<EntryView> {
    let run = last_value(ps, "Exec"@);
    if file_stem(path) is None || is_true(ps, "NoDisplay"@) || is_true(ps, "Hidden"@)
        || last_value(ps, "Type"@) != Some("Application"@) || !shown(
        last_value(ps, "OnlyShowIn"@),
        last_value(ps, "NotShowIn"@),
        desktops,
    ) || (run is None && !is_true(ps, "DBusActivatable"@)) || best_name(ps, locales) is None {
        None
    } else {
        Some(
            EntryView {
                id: file_stem(path)->0,
                name: (best_name(ps, locales)->0).1,
                exec_line: or_empty(run),
                icon: or_empty(last_value(ps, "Icon"@)),
                terminal: is_true(ps, "Terminal"@),
                path: last_value(ps, "Path"@),
                dbus_activatable: is_true(ps, "DBusActivatable"@),
                desktop_file: path,
                categories: match last_value(ps, "Categories"@) {
                    Some(c) => listed(c, ';'),
                    None => Seq::empty(),
                },
            },
        )
    }
}

pub open spec fn or_empty(v: Option<Seq<char>>) -> Seq<char> {
    match v {
        Some(s) => s,
        None => Seq::empty(),
    }
}

fn value_of(ps: &Vec<Pair>, key: &str) -> (r: Option<String>)
    ensures
        text_of(r) == last_value(pair_views(ps@), key@),
{
    let mut i: usize = ps.len();
    proof {
        assert(pair_views(ps@).take(ps@.len() as int) =~= pair_views(ps@));
    }
    while i > 0
        invariant
            i <= ps.len(),
            last_value(pair_views(ps@), key@) == last_value(pair_views(ps@).take(i as int), key@),
        decreases i,
    {
        proof {
            let here = pair_views(ps@).take(i as int);
            assert(here.last() == ps@[i - 1]@);
            assert(here.drop_last() =~= pair_views(ps@).take(i - 1));
        }
        if is_text(&ps[i - 1].key, key) {
            return Some(whole(&ps[i - 1].value));
        }
        i = i - 1;
    }
    None
}

fn flag_of(ps: &Vec<Pair>, key: &str) -> (r: bool)
    ensures
        r == is_true(pair_views(ps@), key@),
{
    match value_of(ps, key) {
        Some(v) => same(v.as_str(), "true"),
        None => false,
    }
}

fn fit_of(locales: &Vec<String>, locale: &Option<Vec<char>>) -> (r: Option<usize>)
    ensures
        ({
            let wanted = match *locale {
                Some(l) => Some(l@),
                None => None,
            };
            match r {
                Some(n) => fit(texts(locales@), wanted) == Some(n as int),
                None => fit(texts(locales@), wanted) is None,
            }
        }),
{
    match locale {
        None => Some(locales.len()),
        Some(l) => {
            let mut i: usize = 0;
            proof {
                assert(texts(locales@).skip(0) =~= texts(locales@));
            }
            while i < locales.len()
                invariant
                    i <= locales.len(),
                    *locale == Some(*l),
                    match place(texts(locales@).skip(i as int), l@) {
                        Some(j) => place(texts(locales@), l@) == Some(i + j),
                        None => place(texts(locales@), l@) is None,
                    },
                decreases locales.len() - i,
            {
                proof {
                    let here = texts(locales@).skip(i as int);
                    assert(here[0] == locales@[i as int]@);
                    assert(here.skip(1) =~= texts(locales@).skip(i + 1));
                }
                if is_text(l, locales[i].as_str()) {
                    return Some(i);
                }
                i = i + 1;
            }
            None
        },
    }
}

fn name_of(ps: &Vec<Pair>, locales: &Vec<String>) -> (r: Option<String>)
    ensures
        match best_name(pair_views(ps@), texts(locales@)) {
            Some((_, n)) => text_of(r) == Some(n),
            None => r is None,
        },
{
    let mut best: Option<(usize, String)> = None;
    let mut i: usize = 0;
    proof {
        assert(pair_views(ps@).take(0) =~= Seq::<PairView>::empty());
    }
    while i < ps.len()
        invariant
            i <= ps.len(),
            match best {
                Some((n, s)) => best_name(pair_views(ps@).take(i as int), texts(locales@)) == Some(
                    (n as int, s@),
                ),
                None => best_name(pair_views(ps@).take(i as int), texts(locales@)) is None,
            },
        decreases ps.len() - i,
    {
        proof {
            let next = pair_views(ps@).take(i + 1);
            assert(next.last() == ps@[i as int]@);
            assert(next.drop_last() =~= pair_views(ps@).take(i as int));
        }
        if is_text(&ps[i].key, "Name") {
            match fit_of(locales, &ps[i].locale) {
                Some(n) => {
                    let better: bool = match &best {
                        Some((m, _)) => n < *m,
                        None => true,
                    };
                    if better {
                        best = Some((n, whole(&ps[i].value)));
                    }
                },
                None => {},
            }
        }
        i = i + 1;
    }
    proof {
        assert(pair_views(ps@).take(ps@.len() as int) =~= pair_views(ps@));
    }
    match best {
        Some((_, s)) => Some(s),
        None => None,
    }
}

/// The name that is shown fits best: no other name of the entry has a locale
/// that is preferred, wherever its line stands.
pub proof fn law_best_name_fits_best(ps: Seq<PairView>, locales: Seq<Seq<char>>)
    ensures
        forall|k: int|
            0 <= k < ps.len() && (#[trigger] ps[k]).key == "Name"@ && fit(locales, ps[k].locale) is Some
                ==> best_name(ps, locales) is Some && (best_name(ps, locales)->0).0 <= fit(
                locales,
                ps[k].locale,
            )->0,
        best_name(ps, locales) is Some ==> exists|k: int|
            0 <= k < ps.len() && (#[trigger] ps[k]).key == "Name"@ && ps[k].value == (best_name(
                ps,
                locales,
            )->0).1 && fit(locales, ps[k].locale) == Some((best_name(ps, locales)->0).0),
    decreases ps.len(),
{
    if ps.len() > 0 {
        let less = ps.drop_last();
        law_best_name_fits_best(less, locales);
        assert forall|k: int|
            0 <= k < ps.len() && (#[trigger] ps[k]).key == "Name"@ && fit(locales, ps[k].locale) is Some
            implies best_name(ps, locales) is Some && (best_name(ps, locales)->0).0 <= fit(
            locales,
            ps[k].locale,
        )->0 by {
            if k < less.len() {
                assert(less[k] == ps[k]);
            }
        }
        if best_name(ps, locales) is Some {
            let p = ps.last();
            if best_name(ps, locales) == best_name(less, locales) {
                let k = choose|k: int|
                    0 <= k < less.len() && (#[trigger] less[k]).key == "Name"@ && less[k].value == (
                    best_name(less, locales)->0).1 && fit(locales, less[k].locale) == Some(
                        (best_name(less, locales)->0).0,
                    );
                assert(ps[k] == less[k]);
            } else {
                assert(ps[ps.len() - 1] == p);
            }
        }
    }
}

fn names_this_desktop(list: &str, current: &Vec<String>) -> (r: bool)
    ensures
        r == names_desktop(list@, texts(current@)),
{
    let names: Vec<String> = list_of(list, ';');
    let mut i: usize = 0;
    while i < names.len()
        invariant
            i <= names.len(),
            texts(names@) == listed(list@, ';'),
            forall|j: int| 0 <= j < i ==> !texts(current@).contains(#[trigger] listed(list@, ';')[j]),
        decreases names.len() - i,
    {
        proof {
            assert(texts(names@)[i as int] == names@[i as int]@);
        }
        if is_listed(current, names[i].as_str()) {
            return true;
        }
        i = i + 1;
    }
    proof {
        assert(texts(names@).len() == names@.len());
    }
    false
}

/// Apply `OnlyShowIn` and `NotShowIn` to the current desktop.
pub fn show_in_this_desktop(only: &Option<String>, not: &Option<String>, current: &Vec<String>) -> (r:
    bool)
    ensures
        r == shown(text_of(*only), text_of(*not), texts(current@)),
{
    if let Some(list) = only {
        return names_this_desktop(list.as_str(), current);
    }
    if let Some(list) = not {
        return !names_this_desktop(list.as_str(), current);
    }
    true
}

/// What [`parse_desktop_in`] may return: the entry that the file describes, if
/// it describes one and the program that it tests for resolves.
pub open spec fn parsed_in<F: Fn(&str) -> bool>(
    path: Seq<char>,
    contents: Seq<char>,
    locales: Seq<Seq<char>>,
    desktops: Seq<Seq<char>>,
    resolves: F,
    r: Option<EntryView>,
) -> bool {
    let e = described(path, pairs(contents), locales, desktops);
    let program = last_value(pairs(contents), "TryExec"@);
    if e is None || program is None {
        r == e
    } else {
        ||| answers(resolves, program->0, true) && r == e
        ||| answers(resolves, program->0, false) && r is None
    }
}

/// Whether none of the lines of `tail` opens the group of the entry.
pub open spec fn opens_no_entry(tail: Seq<char>) -> bool {
    forall|i: int| 0 <= i < lines(tail).len() ==> trim(#[trigger] lines(tail)[i]) != "[Desktop Entry]"@
}

/// Whether a line opens a group other than that of the entry.
pub open spec fn opens_other_group(header: Seq<char>) -> bool {
    &&& !header.contains('\n')
    &&& starts_with(trim(header), "["@)
    &&& trim(header) != "[Desktop Entry]"@
}

proof fn lemma_no_pairs_outside(ls: Seq<Seq<char>>)
    requires
        forall|i: int| 0 <= i < ls.len() ==> trim(#[trigger] ls[i]) != "[Desktop Entry]"@,
    ensures
        pairs_from(ls, false) == Seq::<PairView>::empty(),
    decreases ls.len(),
{
    if ls.len() > 0 {
        assert(trim(ls[0]) != "[Desktop Entry]"@);
        assert forall|i: int| 0 <= i < ls.skip(1).len() implies trim(#[trigger] ls.skip(1)[i])
            != "[Desktop Entry]"@ by {
            assert(ls.skip(1)[i] == ls[i + 1]);
        }
        lemma_no_pairs_outside(ls.skip(1));
    }
}

/// A carriage return at the end of a line is white space.
proof fn lemma_trim_without_return(line: Seq<char>)
    ensures
        trim(without_return(line)) == trim(line),
    decreases line.len(),
{
    if line.len() > 0 && line.last() == '\r' {
        let w = line.drop_last();
        if w.len() == 0 {
            assert(line.skip(1) =~= w);
            assert(trim_start(line) == trim_start(w));
        } else if is_space(line[0]) {
            assert(line.skip(1).last() == '\r');
            assert(line.skip(1).drop_last() =~= w.skip(1));
            lemma_trim_without_return(line.skip(1));
            assert(w[0] == line[0]);
        } else {
            assert(trim_start(line) == line);
            assert(w[0] == line[0]);
            assert(trim_start(w) == w);
        }
    }
}

/// What holds no line feed is gathered whole.
proof fn lemma_lines_pass(p: Seq<char>, t: Seq<char>, cur: Seq<char>)
    requires
        !p.contains('\n'),
    ensures
        lines_from(p + t, cur) == lines_from(t, cur + p),
    decreases p.len(),
{
    if p.len() == 0 {
        assert(p + t =~= t);
        assert(cur + p =~= cur);
    } else {
        assert(p.contains(p[0]));
        let q = p.skip(1);
        assert(!q.contains('\n')) by {
            if q.contains('\n') {
                let k = choose|k: int| 0 <= k < q.len() && q[k] == '\n';
                assert(p[k + 1] == '\n');
            }
        }
        lemma_lines_pass(q, t, cur.push(p[0]));
        assert((p + t).skip(1) =~= q + t);
        assert(cur.push(p[0]) + q =~= cur + p);
    }
}

/// What holds no pairs, inside the group of the entry or not, adds none behind a
/// line feed.
proof fn lemma_pairs_end(c: Seq<char>, cur: Seq<char>, inside: bool, rest: Seq<char>)
    requires
        pairs_from(lines(rest), true) == Seq::<PairView>::empty(),
        pairs_from(lines(rest), false) == Seq::<PairView>::empty(),
    ensures
        pairs_from(lines_from(c + (seq!['\n'] + rest), cur), inside) == pairs_from(
            lines_from(c, cur),
            inside,
        ),
    decreases c.len(),
{
    let all = c + (seq!['\n'] + rest);
    if c.len() == 0 {
        assert(all.skip(1) =~= rest);
        assert(all[0] == '\n');
        let line = without_return(cur);
        let ls = lines_from(all, cur);
        assert(ls == seq![line] + lines(rest));
        assert(ls[0] == line);
        assert(ls.skip(1) =~= lines(rest));
        lemma_trim_without_return(cur);
        reveal_strlit("[");
        if cur.len() == 0 {
            assert(trim(line) =~= Seq::<char>::empty());
            assert(pair_of(trim(line)) is None);
            assert(pairs_from(ls, inside) == pairs_from(lines(rest), inside));
            assert(lines_from(c, cur) =~= Seq::<Seq<char>>::empty());
            assert(pairs_from(lines_from(c, cur), inside) == Seq::<PairView>::empty());
        } else {
            let one = lines_from(c, cur);
            assert(one =~= seq![cur]);
            assert(one.skip(1) =~= Seq::<Seq<char>>::empty());
            assert(pairs_from(one.skip(1), true) == Seq::<PairView>::empty());
            assert(pairs_from(one.skip(1), false) == Seq::<PairView>::empty());
            assert(one[0] == cur);
            assert(pairs_from(ls, inside) == pairs_from(one, inside));
        }
    } else if c[0] == '\n' {
        let line = without_return(cur);
        let a = lines_from(all, cur);
        let b = lines_from(c, cur);
        assert(all.skip(1) =~= c.skip(1) + (seq!['\n'] + rest));
        let a_rest = lines_from(all.skip(1), Seq::empty());
        let b_rest = lines_from(c.skip(1), Seq::empty());
        assert(a == seq![line] + a_rest);
        assert(b == seq![line] + b_rest);
        assert(a[0] == line && b[0] == line);
        assert(a.skip(1) =~= a_rest);
        assert(b.skip(1) =~= b_rest);
        lemma_pairs_end(c.skip(1), Seq::empty(), true, rest);
        lemma_pairs_end(c.skip(1), Seq::empty(), false, rest);
        assert(pairs_from(a_rest, true) == pairs_from(b_rest, true));
        assert(pairs_from(a_rest, false) == pairs_from(b_rest, false));
        assert(pairs_from(a, inside) == pairs_from(b, inside));
    } else {
        assert(all.skip(1) =~= c.skip(1) + (seq!['\n'] + rest));
        lemma_pairs_end(c.skip(1), cur.push(c[0]), inside, rest);
    }
}

/// Other groups of a desktop file never change the entry: a file that goes on
/// with another group, and does not come back to that of the entry, holds the
/// same pairs, and reads as it did without.
pub proof fn law_other_groups_change_nothing<F: Fn(&str) -> bool>(
    path: Seq<char>,
    contents: Seq<char>,
    header: Seq<char>,
    tail: Seq<char>,
    locales: Seq<Seq<char>>,
    desktops: Seq<Seq<char>>,
    resolves: F,
    r: Option<EntryView>,
)
    requires
        opens_other_group(header),
        opens_no_entry(tail),
    ensures
        ({
            let longer = contents + seq!['\n'] + header + seq!['\n'] + tail;
            &&& pairs(longer) == pairs(contents)
            &&& parsed_in(path, longer, locales, desktops, resolves, r) == parsed_in(
                path,
                contents,
                locales,
                desktops,
                resolves,
                r,
            )
        }),
{
    let rest = header + (seq!['\n'] + tail);
    let longer = contents + seq!['\n'] + header + seq!['\n'] + tail;
    lemma_lines_pass(header, seq!['\n'] + tail, Seq::empty());
    assert(Seq::<char>::empty() + header =~= header);
    assert((seq!['\n'] + tail).skip(1) =~= tail);
    let ls = lines(rest);
    assert(ls == seq![without_return(header)] + lines(tail));
    assert(ls[0] == without_return(header));
    assert(ls.skip(1) =~= lines(tail));
    lemma_trim_without_return(header);
    lemma_no_pairs_outside(lines(tail));
    lemma_pairs_end(contents, Seq::empty(), false, rest);
    assert(longer =~= contents + (seq!['\n'] + rest));
}

/// Read a desktop file. `None` when the entry is not to be shown: it is hidden,
/// no application, meant for other desktops, without a name or a way to launch
/// it, or the program that `TryExec` names does not resolve.
pub fn parse_desktop_in<F: Fn(&str) -> bool>(
    path: &str,
    contents: &str,
    env: &DesktopEnv,
    resolves: F,
) -> (r: Option<AppEntry>)
    requires
        total(resolves),
    ensures
        parsed_in(
            path@,
            contents@,
            texts(env.locales@),
            texts(env.desktops@),
            resolves,
            entry_of(r),
        ),
{
    let id: String = match stem_of(path) {
        Some(s) => s,
        None => return None,
    };
    let ps: Vec<Pair> = pairs_of(contents);
    if flag_of(&ps, "NoDisplay") || flag_of(&ps, "Hidden") {
        return None;
    }
    let is_app: bool = match value_of(&ps, "Type") {
        Some(t) => same(t.as_str(), "Application"),
        None => false,
    };
    if !is_app {
        return None;
    }
    if !show_in_this_desktop(
        &value_of(&ps, "OnlyShowIn"),
        &value_of(&ps, "NotShowIn"),
        &env.desktops,
    ) {
        return None;
    }
    let dbus_activatable: bool = flag_of(&ps, "DBusActivatable");
    let exec_line: String = match value_of(&ps, "Exec") {
        Some(e) => e,
        None => {
            if !dbus_activatable {
                return None;
            }
            String::new()
        },
    };
    let name: String = match name_of(&ps, &env.locales) {
        Some(n) => n,
        None => return None,
    };
    let icon: String = match value_of(&ps, "Icon") {
        Some(i) => i,
        None => String::new(),
    };
    let categories: Vec<String> = match value_of(&ps, "Categories") {
        Some(c) => list_of(c.as_str(), ';'),
        None => Vec::new(),
    };
    let entry: AppEntry = AppEntry {
        id,
        name,
        exec_line,
        icon,
        terminal: flag_of(&ps, "Terminal"),
        path: value_of(&ps, "Path"),
        dbus_activatable,
        desktop_file: copy(path),
        categories,
    };
    proof {
        let d = described(path@, pairs(contents@), texts(env.locales@), texts(env.desktops@));
        if last_value(pairs(contents@), "Categories"@) is None {
            assert(entry@.categories =~= Seq::<Seq<char>>::empty());
        }
        assert(d == Some(entry@));
    }
    match value_of(&ps, "TryExec") {
        Some(program) => {
            let found: bool = resolves(program.as_str());
            proof {
                assert(answers(resolves, program@, found));
            }
            if !found {
                return None;
            }
        },
        None => {},
    }
    Some(entry)
}

/// Read a desktop file in the environment that `var` looks up.
pub fn parse_desktop<E: Fn(&str) -> Option<String>, F: Fn(&str) -> bool>(
    path: &str,
    contents: &str,
    var: E,
    resolves: F,
) -> (r: Option<AppEntry>)
    requires
        total(var),
        total(resolves),
    ensures
        exists|all: Option<String>, messages: Option<String>, lang: Option<String>, desktops: Option<String>|
            {
                &&& #[trigger] answers(var, "LC_ALL"@, all)
                &&& #[trigger] answers(var, "LC_MESSAGES"@, messages)
                &&& #[trigger] answers(var, "LANG"@, lang)
                &&& #[trigger] answers(var, "XDG_CURRENT_DESKTOP"@, desktops)
                &&& parsed_in(
                    path@,
                    contents@,
                    candidates(
                        locale_named(first_set(text_of(all), text_of(messages), text_of(lang))),
                    ),
                    desktops_named(text_of(desktops)),
                    resolves,
                    entry_of(r),
                )
            },
{
    let env: DesktopEnv = DesktopEnv::from_env(var);
    parse_desktop_in(path, contents, &env, resolves)
}

/// The entries that are there, the first one of each id.
pub open spec fn first_of_each(found: Seq<Option<EntryView>>) -> Seq<EntryView>
    decreases found.len(),
{
    if found.len() == 0 {
        Seq::empty()
    } else {
        let so_far = first_of_each(found.drop_last());
        match found.last() {
            Some(e) => if has_id(so_far, e.id) {
                so_far
            } else {
                so_far.push(e)
            },
            None => so_far,
        }
    }
}

pub open spec fn has_id(es: Seq<EntryView>, id: Seq<char>) -> bool {
    exists|i: int| 0 <= i < es.len() && (#[trigger] es[i]).id == id
}

/// What a list of entries holds.
pub open spec fn entry_views(es: Seq<AppEntry>) -> Seq<EntryView> {
    es.map_values(|e: AppEntry| e@)
}

/// What came of reading a list of files.
pub open spec fn found_views(es: Seq<Option<AppEntry>>) -> Seq<Option<EntryView>> {
    es.map_values(|e: Option<AppEntry>| entry_of(e))
}

/// Whether an entry with this id is among `es`.
pub fn knows_id(es: &Vec<AppEntry>, id: &str) -> (r: bool)
    ensures
        r == has_id(entry_views(es@), id@),
{
    let mut i: usize = 0;
    while i < es.len()
        invariant
            i <= es.len(),
            forall|j: int| 0 <= j < i ==> (#[trigger] entry_views(es@)[j]).id != id@,
        decreases es.len() - i,
    {
        proof {
            assert(entry_views(es@)[i as int] == es@[i as int]@);
        }
        if same(es[i].id.as_str(), id) {
            return true;
        }
        i = i + 1;
    }
    false
}

/// Collect the catalog from what reading each desktop file gave, files of the
/// directories of highest precedence first: the first entry with an id wins.
pub fn scan_apps(found: Vec<Option<AppEntry>>) -> (r: Vec<AppEntry>)
    ensures
        entry_views(r@) == first_of_each(found_views(found@)),
{
    let ghost all = found_views(found@);
    let mut out: Vec<AppEntry> = Vec::new();
    let mut rest: Vec<Option<AppEntry>> = found;
    let n: usize = rest.len();
    let mut queue: Vec<Option<AppEntry>> = Vec::new();
    // Reverse, so that entries can be moved out from the end.
    while rest.len() > 0
        invariant
            n == found@.len(),
            rest@.len() + queue@.len() == n,
            rest@ == found@.take(rest@.len() as int),
            forall|j: int| 0 <= j < queue@.len() ==> queue@[j] == found@[n - 1 - j],
        decreases rest.len(),
    {
        let ghost m = rest@.len();
        match rest.pop() {
            Some(e) => {
                proof {
                    assert(e == found@[m - 1]);
                }
                queue.push(e);
            },
            None => {},
        }
        proof {
            assert(rest@ =~= found@.take(rest@.len() as int));
        }
    }
    let mut i: usize = 0;
    proof {
        assert(all.take(0) =~= Seq::<Option<EntryView>>::empty());
        assert(entry_views(out@) =~= Seq::<EntryView>::empty());
    }
    while queue.len() > 0
        invariant
            n == found@.len(),
            i + queue@.len() == n,
            all == found_views(found@),
            forall|j: int| 0 <= j < queue@.len() ==> queue@[j] == found@[n - 1 - j],
            entry_views(out@) == first_of_each(all.take(i as int)),
        decreases queue.len(),
    {
        let ghost m = queue@.len();
        proof {
            let next = all.take(i + 1);
            assert(next.drop_last() =~= all.take(i as int));
            assert(queue@[m - 1] == found@[i as int]);
            assert(next.last() == entry_of(found@[i as int]));
        }
        match queue.pop() {
            Some(Some(e)) => {
                let ghost before = out@;
                if !knows_id(&out, e.id.as_str()) {
                    out.push(e);
                    proof {
                        assert(entry_views(out@) =~= entry_views(before).push(e@));
                    }
                }
            },
            _ => {},
        }
        i = i + 1;
    }
    proof {
        assert(all.take(n as int) =~= all);
    }
    out
}

/// No two apps of the catalog have the same id, and every id that was found is
/// in it.
pub proof fn law_catalog_ids_are_unique(found: Seq<Option<EntryView>>)
    ensures
        forall|i: int, j: int|
            0 <= i < j < first_of_each(found).len() ==> first_of_each(found)[i].id != first_of_each(
                found,
            )[j].id,
        forall|k: int|
            0 <= k < found.len() && (#[trigger] found[k]) is Some ==> has_id(
                first_of_each(found),
                found[k]->0.id,
            ),
    decreases found.len(),
{
    if found.len() > 0 {
        let less = found.drop_last();
        law_catalog_ids_are_unique(less);
        let so_far = first_of_each(less);
        let all = first_of_each(found);
        assert forall|k: int| 0 <= k < found.len() && (#[trigger] found[k]) is Some implies has_id(
            all,
            found[k]->0.id,
        ) by {
            if k < less.len() {
                assert(less[k] == found[k]);
                assert(has_id(so_far, less[k]->0.id));
                let i = choose|i: int| 0 <= i < so_far.len() && (#[trigger] so_far[i]).id
                    == found[k]->0.id;
                assert(all[i] == so_far[i]);
            } else if !has_id(so_far, found[k]->0.id) {
                assert(all[so_far.len() as int].id == found[k]->0.id);
            }
        }
    }
}

// ---------------------------------------------------------------------------
// Launching
// ---------------------------------------------------------------------------

/// Find an executable. A program with a `/` in it is checked as it stands; a
/// bare name is looked for in each of the directories of `$PATH`.
pub fn resolve_program<F: Fn(&str) -> bool>(program: &str, dirs: &Vec<String>, is_executable: F) -> (r:
    Option<String>)
    requires
        total(is_executable),
    ensures
        resolved(program@, texts(dirs@), is_executable, text_of(r)),
{
    if program.is_empty() {
        return None;
    }
    let cs: Vec<char> = chars_of(program);
    let slash: usize = crate::text::find_from(&cs, 0, '/');
    proof {
        assert(cs@.skip(0) =~= cs@);
        crate::text::lemma_find_within(cs@, '/');
        if slash < cs.len() {
            assert(program@.contains('/'));
        }
    }
    if slash < cs.len() {
        let found: bool = is_executable(program);
        proof {
            assert(answers(is_executable, program@, found));
        }
        return if found {
            Some(copy(program))
        } else {
            None
        };
    }
    let mut i: usize = 0;
    while i < dirs.len()
        invariant
            i <= dirs.len(),
            total(is_executable),
            program@.len() > 0,
            !program@.contains('/'),
            forall|j: int|
                0 <= j < i ==> answers(
                    is_executable,
                    path_join(#[trigger] texts(dirs@)[j], program@),
                    false,
                ),
        decreases dirs.len() - i,
    {
        let candidate: String = join_path(dirs[i].as_str(), program);
        let found: bool = is_executable(candidate.as_str());
        proof {
            assert(texts(dirs@)[i as int] == dirs@[i as int]@);
            assert(answers(is_executable, candidate@, found));
        }
        if found {
            return Some(candidate);
        }
        i = i + 1;
    }
    None
}

/// What [`resolve_program`] may return: nothing for an empty name; the program
/// itself, if it is a path that is executable; the first of the candidates in
/// `dirs` that is.
pub open spec fn resolved<F: Fn(&str) -> bool>(
    program: Seq<char>,
    dirs: Seq<Seq<char>>,
    is_executable: F,
    r: Option<Seq<char>>,
) -> bool {
    if program.len() == 0 {
        r is None
    } else if program.contains('/') {
        ||| answers(is_executable, program, true) && r == Some(program)
        ||| answers(is_executable, program, false) && r is None
    } else {
        ||| exists|i: int|
            0 <= i < dirs.len() && r == Some(path_join(#[trigger] dirs[i], program)) && answers(
                is_executable,
                path_join(dirs[i], program),
                true,
            ) && (forall|j: int|
                0 <= j < i ==> answers(
                    is_executable,
                    path_join(#[trigger] dirs[j], program),
                    false,
                ))
        ||| r is None && (forall|j: int|
            0 <= j < dirs.len() ==> answers(
                is_executable,
                path_join(#[trigger] dirs[j], program),
                false,
            ))
    }
}

/// The terminal emulators that are known, in the order in which they are tried.
pub open spec fn terminal_names() -> Seq<Seq<char>> {
    seq!["foot"@, "alacritty"@, "kitty"@, "wezterm"@, "gnome-terminal"@, "xterm"@]
}

/// The arguments by which each of them runs the rest of the line as a command.
pub open spec fn terminal_args(i: int) -> Seq<Seq<char>> {
    if i == 2 {
        seq![]
    } else if i == 3 {
        seq!["start"@, "--"@]
    } else if i == 4 {
        seq!["--"@]
    } else {
        seq!["-e"@]
    }
}

/// The first known emulator, from `i` on, by whose name `terminal` ends.
pub open spec fn terminal_kind(terminal: Seq<char>, i: int) -> Option<int>
    decreases 6 - i,
{
    if i >= 6 || i < 0 {
        None
    } else if ends_with(terminal, terminal_names()[i]) {
        Some(i)
    } else {
        terminal_kind(terminal, i + 1)
    }
}

/// The arguments of the terminal that the user chose.
pub open spec fn chosen_args(terminal: Seq<char>) -> Seq<Seq<char>> {
    match terminal_kind(terminal, 0) {
        Some(i) => terminal_args(i),
        None => seq!["-e"@],
    }
}

/// What [`terminal_prefix`] may return when the known emulators are tried: the
/// first one that resolves.
pub open spec fn known_terminal<F: Fn(&str) -> bool>(resolves: F, r: Option<Seq<Seq<char>>>) -> bool {
    ||| exists|i: int|
        0 <= i < 6 && r == Some(seq![#[trigger] terminal_names()[i]] + terminal_args(i)) && answers(
            resolves,
            terminal_names()[i],
            true,
        ) && (forall|j: int|
            0 <= j < i ==> answers(resolves, #[trigger] terminal_names()[j], false))
    ||| r is None && (forall|j: int|
        0 <= j < 6 ==> answers(resolves, #[trigger] terminal_names()[j], false))
}

/// What [`terminal_prefix`] may return: the terminal that the user chose, if it
/// resolves, else a known one.
pub open spec fn prefix_of<F: Fn(&str) -> bool>(
    terminal: Option<Seq<char>>,
    resolves: F,
    r: Option<Seq<Seq<char>>>,
) -> bool {
    if terminal is Some && terminal->0.len() > 0 {
        ||| answers(resolves, terminal->0, true) && r == Some(
            seq![terminal->0] + chosen_args(terminal->0),
        )
        ||| answers(resolves, terminal->0, false) && known_terminal(resolves, r)
    } else {
        known_terminal(resolves, r)
    }
}

fn terminal_name(i: usize) -> (r: String)
    requires
        i < 6,
    ensures
        r@ == terminal_names()[i as int],
{
    if i == 0 {
        copy("foot")
    } else if i == 1 {
        copy("alacritty")
    } else if i == 2 {
        copy("kitty")
    } else if i == 3 {
        copy("wezterm")
    } else if i == 4 {
        copy("gnome-terminal")
    } else {
        copy("xterm")
    }
}

fn push_terminal_args(out: &mut Vec<String>, i: usize)
    ensures
        texts(final(out)@) == texts(old(out)@) + terminal_args(i as int),
{
    let ghost before = out@;
    if i == 2 {
        proof {
            assert(texts(out@) =~= texts(before) + terminal_args(2));
        }
    } else if i == 3 {
        out.push(copy("start"));
        out.push(copy("--"));
        proof {
            assert(texts(out@) =~= texts(before) + terminal_args(3));
        }
    } else if i == 4 {
        out.push(copy("--"));
        proof {
            assert(texts(out@) =~= texts(before) + terminal_args(4));
        }
    } else {
        out.push(copy("-e"));
        proof {
            assert(texts(out@) =~= texts(before) + terminal_args(i as int));
        }
    }
}

/// The terminal emulator, and the arguments by which it runs the rest of the
/// line. `terminal` is `$TERMINAL` as it is set.
pub fn terminal_prefix<F: Fn(&str) -> bool>(terminal: &Option<String>, resolves: F) -> (r: Option<
    Vec<String>,
>)
    requires
        total(resolves),
    ensures
        match r {
            Some(v) => prefix_of(text_of(*terminal), resolves, Some(texts(v@))),
            None => prefix_of(text_of(*terminal), resolves, None),
        },
{
    if let Some(t) = terminal {
        if !t.as_str().is_empty() {
            let found: bool = resolves(t.as_str());
            proof {
                assert(answers(resolves, t@, found));
            }
            if found {
                let cs: Vec<char> = chars_of(t.as_str());
                let mut i: usize = 0;
                while i < 6 && !has_suffix(&cs, terminal_name(i).as_str())
                    invariant
                        i <= 6,
                        cs@ == t@,
                        terminal_kind(t@, 0) == terminal_kind(t@, i as int),
                    decreases 6 - i,
                {
                    i = i + 1;
                }
                let mut out: Vec<String> = Vec::new();
                out.push(copy(t.as_str()));
                proof {
                    assert(texts(out@) =~= seq![t@]);
                }
                push_terminal_args(&mut out, i);
                return Some(out);
            }
        }
    }
    let mut i: usize = 0;
    while i < 6
        invariant
            i <= 6,
            total(resolves),
            terminal is Some && terminal->0@.len() > 0 ==> answers(resolves, terminal->0@, false),
            forall|j: int| 0 <= j < i ==> answers(resolves, #[trigger] terminal_names()[j], false),
        decreases 6 - i,
    {
        let name: String = terminal_name(i);
        let found: bool = resolves(name.as_str());
        proof {
            assert(answers(resolves, name@, found));
        }
        if found {
            let mut out: Vec<String> = Vec::new();
            out.push(name);
            proof {
                assert(texts(out@) =~= seq![terminal_names()[i as int]]);
            }
            push_terminal_args(&mut out, i);
            return Some(out);
        }
        i = i + 1;
    }
    None
}

/// The command that launches an entry: what to run, and where.
#[derive(Debug, PartialEq)]
pub struct LaunchCommand {
    pub argv: Vec<String>,
    pub cwd: Option<String>,
}

/// What a [`LaunchCommand`] holds.
pub struct LaunchView {
    pub argv: Seq<Seq<char>>,
    pub cwd: Option<Seq<char>>,
}

impl View for LaunchCommand {
    type V = LaunchView;

    open spec fn view(&self) -> LaunchView {
        LaunchView { argv: texts(self.argv@), cwd: text_of(self.cwd) }
    }
}

/// The arguments of an entry, terminal aside. An entry without `Exec` is
/// launched through `gio`, which speaks D-Bus activation.
pub open spec fn bare_argv(e: EntryView) -> Seq<Seq<char>> {
    if e.exec_line.len() > 0 {
        argv(
            e.exec_line,
            ContextView { icon: e.icon, name: e.name, desktop_file: e.desktop_file },
        )
    } else if e.dbus_activatable {
        seq!["gio"@, "launch"@, e.desktop_file]
    } else {
        Seq::empty()
    }
}

/// What [`launch_command`] may return.
pub open spec fn launched<F: Fn(&str) -> bool>(
    e: EntryView,
    terminal: Option<Seq<char>>,
    resolves: F,
    r: Option<LaunchView>,
) -> bool {
    if bare_argv(e).len() == 0 {
        r is None
    } else if !e.terminal {
        r == Some(LaunchView { argv: bare_argv(e), cwd: e.path })
    } else {
        ||| r is None && prefix_of(terminal, resolves, None)
        ||| exists|p: Seq<Seq<char>>|
            #[trigger] prefix_of(terminal, resolves, Some(p)) && r == Some(
                LaunchView { argv: p + bare_argv(e), cwd: e.path },
            )
    }
}

/// Resolve an entry to the command that launches it. `None` when there is
/// nothing to run, or no terminal emulator to run it in.
pub fn launch_command<F: Fn(&str) -> bool>(
    entry: &AppEntry,
    terminal: &Option<String>,
    resolves: F,
) -> (r: Option<LaunchCommand>)
    requires
        total(resolves),
    ensures
        match r {
            Some(c) => launched(entry@, text_of(*terminal), resolves, Some(c@)),
            None => launched(entry@, text_of(*terminal), resolves, None),
        },
{
    let mut args: Vec<String> = if entry.exec_line.as_str().is_empty() {
        if !entry.dbus_activatable {
            return None;
        }
        let mut v: Vec<String> = Vec::new();
        v.push(copy("gio"));
        v.push(copy("launch"));
        v.push(copy(entry.desktop_file.as_str()));
        proof {
            assert(texts(v@) =~= bare_argv(entry@));
        }
        v
    } else {
        parse_exec_with(
            entry.exec_line.as_str(),
            &ExecContext {
                icon: entry.icon.as_str(),
                name: entry.name.as_str(),
                desktop_file: entry.desktop_file.as_str(),
            },
        )
    };
    proof {
        assert(texts(args@).len() == args@.len());
    }
    if args.len() == 0 {
        return None;
    }
    if entry.terminal {
        let mut wrapped: Vec<String> = match terminal_prefix(terminal, resolves) {
            Some(p) => p,
            None => return None,
        };
        let ghost p = texts(wrapped@);
        wrapped.append(&mut args);
        proof {
            assert(texts(wrapped@) =~= p + bare_argv(entry@));
            assert(prefix_of(text_of(*terminal), resolves, Some(p)));
        }
        return Some(LaunchCommand { argv: wrapped, cwd: copy_opt(&entry.path) });
    }
    Some(LaunchCommand { argv: args, cwd: copy_opt(&entry.path) })
}

/// What is launched always has a program to run, and a terminal app is never
/// run bare: the terminal comes first, and the app's own line ends the command.
pub proof fn law_launch_has_a_program<F: Fn(&str) -> bool>(
    e: EntryView,
    terminal: Option<Seq<char>>,
    resolves: F,
    r: Option<LaunchView>,
)
    requires
        launched(e, terminal, resolves, r),
        r is Some,
    ensures
        r->0.argv.len() > 0,
        r->0.cwd == e.path,
        r->0.argv.len() >= bare_argv(e).len(),
        r->0.argv.skip(r->0.argv.len() - bare_argv(e).len()) == bare_argv(e),
        e.terminal ==> r->0.argv.len() > bare_argv(e).len(),
{
    let b = bare_argv(e);
    if e.terminal {
        let p = choose|p: Seq<Seq<char>>|
            #[trigger] prefix_of(terminal, resolves, Some(p)) && r == Some(
                LaunchView { argv: p + b, cwd: e.path },
            );
        assert(p.len() > 0);
        assert((p + b).skip((p + b).len() - b.len()) =~= b);
    } else {
        assert(b.skip(0) =~= b);
    }
}

// ---------------------------------------------------------------------------
// Laws on entries
// ---------------------------------------------------------------------------

/// Whether the last pair with the key `key` has the value `v`.
pub open spec fn says(ps: Seq<PairView>, key: Seq<char>, v: Seq<char>) -> bool {
    exists|i: int|
        0 <= i < ps.len() && (#[trigger] ps[i]).key == key && ps[i].value == v && (forall|j: int|
            i < j < ps.len() ==> (#[trigger] ps[j]).key != key)
}

/// Whether no pair has the key `key`.
pub open spec fn is_silent(ps: Seq<PairView>, key: Seq<char>) -> bool {
    forall|i: int| 0 <= i < ps.len() ==> (#[trigger] ps[i]).key != key
}

/// Of several pairs with a key the last one counts.
pub proof fn law_last_setting_counts(ps: Seq<PairView>, key: Seq<char>)
    ensures
        last_value(ps, key) is None <==> is_silent(ps, key),
        forall|v: Seq<char>| last_value(ps, key) == Some(v) <==> #[trigger] says(ps, key, v),
    decreases ps.len(),
{
    if ps.len() > 0 {
        let less = ps.drop_last();
        let n = ps.len() - 1;
        law_last_setting_counts(less, key);
        if ps.last().key == key {
            assert(ps[n].key == key);
            assert forall|v: Seq<char>| last_value(ps, key) == Some(v) <==> #[trigger] says(
                ps,
                key,
                v,
            ) by {
                if says(ps, key, v) {
                    let i = choose|i: int|
                        0 <= i < ps.len() && (#[trigger] ps[i]).key == key && ps[i].value == v && (
                        forall|j: int| i < j < ps.len() ==> (#[trigger] ps[j]).key != key);
                    if i < n {
                        assert(ps[n].key != key);
                    }
                }
            }
        } else {
            assert forall|v: Seq<char>| says(less, key, v) <==> #[trigger] says(ps, key, v) by {
                if says(less, key, v) {
                    let i = choose|i: int|
                        0 <= i < less.len() && (#[trigger] less[i]).key == key && less[i].value == v
                            && (forall|j: int|
                            i < j < less.len() ==> (#[trigger] less[j]).key != key);
                    assert(ps[i].key == key);
                    assert forall|j: int| i < j < ps.len() implies (#[trigger] ps[j]).key != key by {
                        if j < n {
                            assert(less[j] == ps[j]);
                        }
                    }
                }
                if says(ps, key, v) {
                    let i = choose|i: int|
                        0 <= i < ps.len() && (#[trigger] ps[i]).key == key && ps[i].value == v && (
                        forall|j: int| i < j < ps.len() ==> (#[trigger] ps[j]).key != key);
                    assert(i < n);
                    assert(less[i].key == key);
                    assert forall|j: int| i < j < less.len() implies (#[trigger] less[j]).key != key by {
                        assert(ps[j].key != key);
                    }
                }
            }
            if is_silent(less, key) {
                assert forall|i: int| 0 <= i < ps.len() implies (#[trigger] ps[i]).key != key by {
                    if i < n {
                        assert(less[i] == ps[i]);
                    }
                }
            }
            if is_silent(ps, key) {
                assert forall|i: int| 0 <= i < less.len() implies (#[trigger] less[i]).key != key by {
                    assert(ps[i].key != key);
                }
            }
        }
    }
}

/// Whether some pair names the app, without a locale or in one that is accepted.
pub open spec fn is_named(ps: Seq<PairView>, locales: Seq<Seq<char>>) -> bool {
    exists|i: int|
        0 <= i < ps.len() && (#[trigger] ps[i]).key == "Name"@ && (ps[i].locale is None
            || locales.contains(ps[i].locale->0))
}

/// Whether one of the names in a list is among those of the desktop.
pub open spec fn shares_a_name(list: Seq<char>, desktops: Seq<Seq<char>>) -> bool {
    exists|n: Seq<char>| #[trigger] listed(list, ';').contains(n) && desktops.contains(n)
}

proof fn lemma_shares_a_name(list: Seq<char>, desktops: Seq<Seq<char>>)
    ensures
        names_desktop(list, desktops) == shares_a_name(list, desktops),
{
    let ls = listed(list, ';');
    if names_desktop(list, desktops) {
        let i = choose|i: int| 0 <= i < ls.len() && desktops.contains(#[trigger] ls[i]);
        assert(ls.contains(ls[i]));
    }
    if shares_a_name(list, desktops) {
        let n = choose|n: Seq<char>| #[trigger] ls.contains(n) && desktops.contains(n);
        let i = choose|i: int| 0 <= i < ls.len() && ls[i] == n;
        assert(desktops.contains(ls[i]));
    }
}

/// An entry for certain desktops only is shown on those, one that is not for
/// certain desktops is shown on the others, and the first of the two goes first. An
/// entry that says neither is shown everywhere.
pub proof fn law_entries_keep_to_their_desktops(
    only: Option<Seq<char>>,
    not: Option<Seq<char>>,
    desktops: Seq<Seq<char>>,
)
    ensures
        only is Some ==> (shown(only, not, desktops) <==> shares_a_name(only->0, desktops)),
        only is None && not is Some ==> (shown(only, not, desktops) <==> !shares_a_name(
            not->0,
            desktops,
        )),
        only is None && not is None ==> shown(only, not, desktops),
{
    if only is Some {
        lemma_shares_a_name(only->0, desktops);
    }
    if not is Some {
        lemma_shares_a_name(not->0, desktops);
    }
}

proof fn lemma_place(locales: Seq<Seq<char>>, l: Seq<char>)
    ensures
        place(locales, l) is Some <==> locales.contains(l),
    decreases locales.len(),
{
    if locales.len() > 0 {
        lemma_place(locales.skip(1), l);
        if locales.contains(l) && locales[0] != l {
            let k = choose|k: int| 0 <= k < locales.len() && locales[k] == l;
            assert(locales.skip(1)[k - 1] == l);
        }
        if locales.skip(1).contains(l) {
            let k = choose|k: int| 0 <= k < locales.skip(1).len() && locales.skip(1)[k] == l;
            assert(locales[k + 1] == l);
        }
        if locales[0] == l {
            assert(locales.contains(l));
        }
    }
}

proof fn lemma_is_named(ps: Seq<PairView>, locales: Seq<Seq<char>>)
    ensures
        best_name(ps, locales) is Some <==> is_named(ps, locales),
{
    law_best_name_fits_best(ps, locales);
    if best_name(ps, locales) is Some {
        let k = choose|k: int|
            0 <= k < ps.len() && (#[trigger] ps[k]).key == "Name"@ && ps[k].value == (best_name(
                ps,
                locales,
            )->0).1 && fit(locales, ps[k].locale) == Some((best_name(ps, locales)->0).0);
        if ps[k].locale is Some {
            lemma_place(locales, ps[k].locale->0);
        }
    }
    if is_named(ps, locales) {
        let i = choose|i: int|
            0 <= i < ps.len() && (#[trigger] ps[i]).key == "Name"@ && (ps[i].locale is None
                || locales.contains(ps[i].locale->0));
        if ps[i].locale is Some {
            lemma_place(locales, ps[i].locale->0);
        }
        assert(fit(locales, ps[i].locale) is Some);
    }
}

/// Whether what a file says keeps its entry from being shown: it is hidden, or no
/// application, or cannot be launched, or has no name, or belongs elsewhere.
pub open spec fn rules_itself_out(
    path: Seq<char>,
    ps: Seq<PairView>,
    locales: Seq<Seq<char>>,
    desktops: Seq<Seq<char>>,
) -> bool {
    ||| file_stem(path) is None
    ||| says(ps, "Hidden"@, "true"@)
    ||| says(ps, "NoDisplay"@, "true"@)
    ||| !says(ps, "Type"@, "Application"@)
    ||| is_silent(ps, "Exec"@) && !says(ps, "DBusActivatable"@, "true"@)
    ||| !is_named(ps, locales)
    ||| exists|l: Seq<char>| #[trigger] says(ps, "OnlyShowIn"@, l) && !shares_a_name(l, desktops)
    ||| is_silent(ps, "OnlyShowIn"@) && exists|l: Seq<char>| #[trigger]
        says(ps, "NotShowIn"@, l) && shares_a_name(l, desktops)
}

proof fn lemma_described(
    path: Seq<char>,
    ps: Seq<PairView>,
    locales: Seq<Seq<char>>,
    desktops: Seq<Seq<char>>,
)
    ensures
        described(path, ps, locales, desktops) is None <==> rules_itself_out(
            path,
            ps,
            locales,
            desktops,
        ),
{
    law_last_setting_counts(ps, "Hidden"@);
    law_last_setting_counts(ps, "NoDisplay"@);
    law_last_setting_counts(ps, "Type"@);
    law_last_setting_counts(ps, "Exec"@);
    law_last_setting_counts(ps, "DBusActivatable"@);
    law_last_setting_counts(ps, "OnlyShowIn"@);
    law_last_setting_counts(ps, "NotShowIn"@);
    lemma_is_named(ps, locales);
    let only = last_value(ps, "OnlyShowIn"@);
    let not = last_value(ps, "NotShowIn"@);
    law_entries_keep_to_their_desktops(only, not, desktops);
    if only is Some {
        assert(says(ps, "OnlyShowIn"@, only->0));
    }
    if not is Some {
        assert(says(ps, "NotShowIn"@, not->0));
    }
}

/// A file gives no entry when it says that it is hidden, or rules itself out in any
/// other way, whatever else it holds. Otherwise it gives one, unless the program
/// that it tests for is not there.
pub proof fn law_hidden_entries_are_not_shown<F: Fn(&str) -> bool>(
    path: Seq<char>,
    contents: Seq<char>,
    locales: Seq<Seq<char>>,
    desktops: Seq<Seq<char>>,
    resolves: F,
    r: Option<EntryView>,
)
    requires
        parsed_in(path, contents, locales, desktops, resolves, r),
    ensures
        says(pairs(contents), "Hidden"@, "true"@) ==> r is None,
        says(pairs(contents), "NoDisplay"@, "true"@) ==> r is None,
        rules_itself_out(path, pairs(contents), locales, desktops) ==> r is None,
        !rules_itself_out(path, pairs(contents), locales, desktops) && is_silent(
            pairs(contents),
            "TryExec"@,
        ) ==> r is Some,
        !rules_itself_out(path, pairs(contents), locales, desktops) ==> forall|p: Seq<char>| #[trigger]
            says(pairs(contents), "TryExec"@, p) ==> (r is Some ==> answers(resolves, p, true)) && (
            r is None ==> answers(resolves, p, false)),
{
    let ps = pairs(contents);
    lemma_described(path, ps, locales, desktops);
    law_last_setting_counts(ps, "TryExec"@);
}

/// An entry holds what its file says: the line to run, the icon, the directory and
/// the categories as they are written, the two flags exactly when they are set, its
/// id from the name of the file, and its name from a pair that fits the locale best.
pub proof fn law_entry_holds_what_the_file_says<F: Fn(&str) -> bool>(
    path: Seq<char>,
    contents: Seq<char>,
    locales: Seq<Seq<char>>,
    desktops: Seq<Seq<char>>,
    resolves: F,
    e: EntryView,
)
    requires
        parsed_in(path, contents, locales, desktops, resolves, Some(e)),
    ensures
        ({
            let ps = pairs(contents);
            &&& file_stem(path) == Some(e.id) && e.desktop_file == path
            &&& forall|v: Seq<char>| #[trigger] says(ps, "Exec"@, v) ==> e.exec_line == v
            &&& is_silent(ps, "Exec"@) ==> e.exec_line.len() == 0 && e.dbus_activatable
            &&& forall|v: Seq<char>| #[trigger] says(ps, "Icon"@, v) ==> e.icon == v
            &&& is_silent(ps, "Icon"@) ==> e.icon.len() == 0
            &&& forall|v: Seq<char>| e.path == Some(v) <==> #[trigger] says(ps, "Path"@, v)
            &&& e.terminal <==> says(ps, "Terminal"@, "true"@)
            &&& e.dbus_activatable <==> says(ps, "DBusActivatable"@, "true"@)
            &&& forall|v: Seq<char>| #[trigger]
                says(ps, "Categories"@, v) ==> e.categories == listed(v, ';')
            &&& is_silent(ps, "Categories"@) ==> e.categories.len() == 0
            &&& exists|i: int|
                0 <= i < ps.len() && (#[trigger] ps[i]).key == "Name"@ && ps[i].value == e.name && (
                ps[i].locale is None || locales.contains(ps[i].locale->0))
        }),
{
    let ps = pairs(contents);
    law_last_setting_counts(ps, "Exec"@);
    law_last_setting_counts(ps, "Icon"@);
    law_last_setting_counts(ps, "Path"@);
    law_last_setting_counts(ps, "Terminal"@);
    law_last_setting_counts(ps, "DBusActivatable"@);
    law_last_setting_counts(ps, "Categories"@);
    law_best_name_fits_best(ps, locales);
    let k = choose|k: int|
        0 <= k < ps.len() && (#[trigger] ps[k]).key == "Name"@ && ps[k].value == (best_name(
            ps,
            locales,
        )->0).1 && fit(locales, ps[k].locale) == Some((best_name(ps, locales)->0).0);
    if ps[k].locale is Some {
        lemma_place(locales, ps[k].locale->0);
    }
    assert(ps[k].value == e.name);
}

/// A name in the locale that is wanted most goes before all others, and one without
/// a locale stands in only where none fits.
pub proof fn law_wanted_locale_names_the_app(ps: Seq<PairView>, locales: Seq<Seq<char>>, k: int)
    requires
        0 <= k < ps.len(),
        ps[k].key == "Name"@,
        locales.len() > 0,
        ps[k].locale == Some(locales[0]),
        forall|j: int|
            0 <= j < ps.len() && j != k ==> !((#[trigger] ps[j]).key == "Name"@ && ps[j].locale
                == Some(locales[0])),
    ensures
        best_name(ps, locales) is Some,
        (best_name(ps, locales)->0).1 == ps[k].value,
{
    law_best_name_fits_best(ps, locales);
    assert(fit(locales, ps[k].locale) == Some(0int));
    let b = best_name(ps, locales)->0;
    let i = choose|i: int|
        0 <= i < ps.len() && (#[trigger] ps[i]).key == "Name"@ && ps[i].value == b.1 && fit(
            locales,
            ps[i].locale,
        ) == Some(b.0);
    if i != k {
        lemma_place_first(locales, ps[i].locale);
    }
}

/// Of names that fit equally well the first one counts.
pub proof fn law_first_of_equal_names_counts(ps: Seq<PairView>, locales: Seq<Seq<char>>, k: int)
    requires
        0 <= k < ps.len(),
        ps[k].key == "Name"@,
        fit(locales, ps[k].locale) is Some,
        forall|j: int|
            0 <= j < ps.len() && (#[trigger] ps[j]).key == "Name"@ && fit(locales, ps[j].locale) is Some
                ==> fit(locales, ps[k].locale)->0 <= fit(locales, ps[j].locale)->0,
        forall|j: int|
            0 <= j < k && (#[trigger] ps[j]).key == "Name"@ ==> fit(locales, ps[j].locale) != fit(
                locales,
                ps[k].locale,
            ),
    ensures
        best_name(ps, locales) == Some((fit(locales, ps[k].locale)->0, ps[k].value)),
    decreases ps.len(),
{
    let less = ps.drop_last();
    if k < less.len() {
        assert(less[k] == ps[k]);
        assert forall|j: int|
            0 <= j < less.len() && (#[trigger] less[j]).key == "Name"@ && fit(
                locales,
                less[j].locale,
            ) is Some implies fit(locales, less[k].locale)->0 <= fit(locales, less[j].locale)->0 by {
            assert(less[j] == ps[j]);
        }
        assert forall|j: int| 0 <= j < k && (#[trigger] less[j]).key == "Name"@ implies fit(
            locales,
            less[j].locale,
        ) != fit(locales, less[k].locale) by {
            assert(less[j] == ps[j]);
        }
        law_first_of_equal_names_counts(less, locales, k);
        assert(ps[ps.len() - 1] == ps.last());
    } else {
        law_best_name_fits_best(less, locales);
        if best_name(less, locales) is Some {
            let b = best_name(less, locales)->0;
            let i = choose|i: int|
                0 <= i < less.len() && (#[trigger] less[i]).key == "Name"@ && less[i].value == b.1 && fit(
                    locales,
                    less[i].locale,
                ) == Some(b.0);
            assert(ps[i] == less[i]);
        }
    }
}

proof fn lemma_place_first(locales: Seq<Seq<char>>, l: Option<Seq<char>>)
    requires
        locales.len() > 0,
    ensures
        fit(locales, l) is Some ==> (fit(locales, l)->0 <= 0 ==> l == Some(locales[0])),
{
    if l is Some {
        lemma_place_at(locales, l->0);
    }
}

proof fn lemma_place_at(locales: Seq<Seq<char>>, l: Seq<char>)
    ensures
        place(locales, l) matches Some(i) ==> 0 <= i < locales.len() && locales[i] == l,
    decreases locales.len(),
{
    if locales.len() > 0 && locales[0] != l {
        lemma_place_at(locales.skip(1), l);
    }
}

// ---------------------------------------------------------------------------
// Laws on what a file holds
// ---------------------------------------------------------------------------

/// Whether a text neither begins nor ends with white space, and is a single line.
pub open spec fn is_tidy(s: Seq<char>) -> bool {
    &&& s.len() > 0
    &&& !is_space(s[0]) && !is_space(s.last())
    &&& !s.contains('\n')
}

/// A pair as a file writes it: the value still escaped.
pub struct WrittenPair {
    pub key: Seq<char>,
    pub locale: Option<Seq<char>>,
    pub value: Seq<char>,
}

impl WrittenPair {
    /// Whether it can be written on a line.
    pub open spec fn wf(self) -> bool {
        &&& is_tidy(self.key) && self.key[0] != '#'
        &&& !self.key.contains('=') && !self.key.contains('[')
        &&& self.value.len() > 0 ==> is_tidy(self.value)
        &&& self.locale matches Some(l) ==> !l.contains('=') && !l.contains('\n')
    }

    /// The key with the locale in brackets behind it.
    pub open spec fn left(self) -> Seq<char> {
        match self.locale {
            Some(l) => self.key + seq!['['] + l + seq![']'],
            None => self.key,
        }
    }

    pub open spec fn line(self) -> Seq<char> {
        self.left() + seq!['='] + self.value
    }

    /// What it reads as.
    pub open spec fn read(self) -> PairView {
        PairView { key: self.key, locale: self.locale, value: unescaped(self.value) }
    }
}

/// The lines of an entry, each with its line feed.
pub open spec fn entry_lines(ws: Seq<WrittenPair>) -> Seq<char>
    decreases ws.len(),
{
    if ws.len() == 0 {
        Seq::empty()
    } else {
        ws[0].line() + seq!['\n'] + entry_lines(ws.skip(1))
    }
}

proof fn lemma_find_in(s: Seq<char>, t: Seq<char>, c: char)
    requires
        !s.contains(c),
    ensures
        find(s + seq![c] + t, c) == s.len(),
        split_once(s + seq![c] + t, c) == Some((s, t)),
    decreases s.len(),
{
    let all = s + seq![c] + t;
    if s.len() > 0 {
        assert(s.contains(s[0]));
        let rest = s.skip(1);
        assert(!rest.contains(c)) by {
            if rest.contains(c) {
                let k = choose|k: int| 0 <= k < rest.len() && rest[k] == c;
                assert(s[k + 1] == c);
            }
        }
        lemma_find_in(rest, t, c);
        assert(all.skip(1) =~= rest + seq![c] + t);
        assert(all[0] == s[0]);
    }
    assert(all.take(s.len() as int) =~= s);
    assert(all.skip(s.len() as int + 1) =~= t);
}

proof fn lemma_find_none(s: Seq<char>, c: char)
    requires
        !s.contains(c),
    ensures
        split_once(s, c) is None,
        find(s, c) == s.len(),
    decreases s.len(),
{
    if s.len() > 0 {
        assert(s.contains(s[0]));
        let rest = s.skip(1);
        assert(!rest.contains(c)) by {
            if rest.contains(c) {
                let k = choose|k: int| 0 <= k < rest.len() && rest[k] == c;
                assert(s[k + 1] == c);
            }
        }
        lemma_find_none(rest, c);
    }
}

/// What begins and ends with anything but white space is left as it is.
proof fn lemma_trim_tidy(s: Seq<char>)
    requires
        s.len() > 0 ==> !is_space(s[0]) && !is_space(s.last()),
    ensures
        trim(s) == s,
{
}

proof fn lemma_pair_line(w: WrittenPair)
    requires
        w.wf(),
    ensures
        trim(w.line()) == w.line(),
        !w.line().contains('\n'),
        w.line().len() > 0,
        w.line().last() != '\r',
        !starts_with(w.line(), "["@),
        !starts_with(w.line(), "#"@),
        pair_of(w.line()) == Some(w.read()),
{
    let line = w.line();
    let left = w.left();
    reveal_strlit("[");
    reveal_strlit("#");
    assert(w.key.contains(w.key[0]));
    assert(line[0] == w.key[0]);
    assert(line.last() == (if w.value.len() > 0 {
        w.value.last()
    } else {
        '='
    }));
    lemma_trim_tidy(line);
    assert forall|k: int| 0 <= k < line.len() implies line[k] != '\n' by {
        if k < w.key.len() {
            assert(w.key.contains(w.key[k]));
        } else if k < left.len() {
            if w.locale is Some {
                let l = w.locale->0;
                let j = k - w.key.len() - 1;
                if 0 <= j < l.len() {
                    assert(l.contains(l[j]));
                    assert(line[k] == l[j]);
                }
            }
        } else if k > left.len() {
            assert(w.value.contains(w.value[k - left.len() - 1]));
        }
    }
    assert(line.take(1)[0] == line[0]);
    assert(!left.contains('=')) by {
        if left.contains('=') {
            let k = choose|k: int| 0 <= k < left.len() && left[k] == '=';
            if k < w.key.len() {
                assert(w.key.contains(w.key[k]));
            } else {
                let l = w.locale->0;
                let j = k - w.key.len() - 1;
                if 0 <= j < l.len() {
                    assert(l.contains(l[j]));
                    assert(left[k] == l[j]);
                }
            }
        }
    }
    lemma_find_in(left, w.value, '=');
    assert(left[0] == w.key[0]);
    assert(left.last() == (if w.locale is Some {
        ']'
    } else {
        w.key.last()
    }));
    lemma_trim_tidy(left);
    lemma_trim_tidy(w.value);
    match w.locale {
        Some(l) => {
            let rest = l + seq![']'];
            assert(left =~= w.key + seq!['['] + rest);
            lemma_find_in(w.key, rest, '[');
            assert(rest.drop_last() =~= l);
        },
        None => {
            lemma_find_none(w.key, '[');
        },
    }
}

proof fn lemma_entry_lines(ws: Seq<WrittenPair>)
    requires
        forall|i: int| 0 <= i < ws.len() ==> (#[trigger] ws[i]).wf(),
    ensures
        pairs_from(lines(entry_lines(ws)), true) == ws.map_values(|w: WrittenPair| w.read()),
    decreases ws.len(),
{
    let reads = ws.map_values(|w: WrittenPair| w.read());
    if ws.len() == 0 {
        assert(reads =~= Seq::<PairView>::empty());
        assert(lines(entry_lines(ws)) =~= Seq::<Seq<char>>::empty());
    } else {
        let rest = ws.skip(1);
        assert forall|i: int| 0 <= i < rest.len() implies (#[trigger] rest[i]).wf() by {
            assert(rest[i] == ws[i + 1]);
        }
        lemma_entry_lines(rest);
        assert(ws[0].wf());
        lemma_pair_line(ws[0]);
        let line = ws[0].line();
        let tail = seq!['\n'] + entry_lines(rest);
        assert(entry_lines(ws) =~= line + tail);
        lemma_lines_pass(line, tail, Seq::empty());
        assert(Seq::<char>::empty() + line =~= line);
        assert(tail.skip(1) =~= entry_lines(rest));
        let ls = lines(entry_lines(ws));
        assert(ls == seq![line] + lines(entry_lines(rest)));
        assert(ls[0] == line);
        assert(ls.skip(1) =~= lines(entry_lines(rest)));
        let later = rest.map_values(|w: WrittenPair| w.read());
        assert(reads =~= seq![ws[0].read()] + later);
    }
}

/// What is written line by line into the group of the entry is read back: each key
/// with its locale and its value, in order, and nothing else.
pub proof fn law_written_entry_reads_back(ws: Seq<WrittenPair>)
    requires
        forall|i: int| 0 <= i < ws.len() ==> (#[trigger] ws[i]).wf(),
    ensures
        pairs("[Desktop Entry]\n"@ + entry_lines(ws)) == ws.map_values(|w: WrittenPair| w.read()),
{
    reveal_strlit("[Desktop Entry]\n");
    reveal_strlit("[Desktop Entry]");
    reveal_strlit("[");
    let head = "[Desktop Entry]"@;
    let tail = seq!['\n'] + entry_lines(ws);
    assert("[Desktop Entry]\n"@ =~= head + seq!['\n']);
    assert("[Desktop Entry]\n"@ + entry_lines(ws) =~= head + tail);
    assert(!head.contains('\n'));
    lemma_lines_pass(head, tail, Seq::empty());
    assert(Seq::<char>::empty() + head =~= head);
    assert(tail.skip(1) =~= entry_lines(ws));
    assert(head.len() == 15 && head[0] == '[' && head.last() == ']');
    lemma_trim_tidy(head);
    let ls = lines(head + tail);
    assert(ls == seq![head] + lines(entry_lines(ws)));
    assert(ls[0] == head);
    assert(ls.skip(1) =~= lines(entry_lines(ws)));
    assert(head.take(1) =~= "["@);
    assert(starts_with(head, "["@));
    lemma_entry_lines(ws);
}

/// Comments and blank lines hold no pairs, and neither does anything before the
/// group of the entry.
pub proof fn law_comments_hold_nothing(line: Seq<char>, ls: Seq<Seq<char>>, inside: bool)
    requires
        trim(line).len() == 0 || trim(line)[0] == '#' || (!inside && trim(line)[0] != '['),
    ensures
        pairs_from(seq![line] + ls, inside) == pairs_from(ls, inside),
{
    reveal_strlit("[");
    reveal_strlit("#");
    let all = seq![line] + ls;
    assert(all[0] == line);
    assert(all.skip(1) =~= ls);
    let t = trim(line);
    if t.len() > 0 {
        assert(t.take(1)[0] == t[0]);
        if t[0] == '#' {
            assert(t.take(1) =~= "#"@);
        }
    } else {
        lemma_find_none(t, '=');
    }
}

// ---------------------------------------------------------------------------
// Laws on paths and lists
// ---------------------------------------------------------------------------

/// The items of a list come back as they were put in, in order; empty ones are
/// passed over.
pub proof fn law_list_items_come_back(items: Seq<Seq<char>>, sep: char)
    requires
        items.len() > 0,
        forall|i: int| 0 <= i < items.len() ==> (#[trigger] items[i]).len() > 0 && !items[i].contains(
            sep,
        ),
    ensures
        listed(join(items, seq![sep]), sep) == items,
        listed(join(items, seq![sep]).push(sep), sep) == items,
        listed(Seq::<char>::empty(), sep).len() == 0,
{
    let keep = |p: Seq<char>| p.len() > 0;
    law_joined_pieces_split_back(items, sep);
    lemma_filter_all(items, keep);
    let more = items.push(Seq::<char>::empty());
    assert forall|i: int| 0 <= i < more.len() implies !(#[trigger] more[i]).contains(sep) by {
        if i < items.len() {
            assert(more[i] == items[i]);
        }
    }
    law_joined_pieces_split_back(more, sep);
    assert(more.drop_last() =~= items);
    assert(join(more, seq![sep]) =~= join(items, seq![sep]).push(sep));
    reveal(Seq::filter);
    assert(more.filter(keep) == items.filter(keep));
    let none = Seq::<char>::empty();
    assert(split(none, sep) =~= seq![none]);
    assert(seq![none].drop_last() =~= Seq::<Seq<char>>::empty());
    assert(Seq::<Seq<char>>::empty().filter(keep) =~= Seq::<Seq<char>>::empty());
    assert(seq![none].last() == none);
    assert(seq![none].filter(keep) == Seq::<Seq<char>>::empty().filter(keep));
}

proof fn lemma_filter_all(items: Seq<Seq<char>>, keep: spec_fn(Seq<char>) -> bool)
    requires
        forall|i: int| 0 <= i < items.len() ==> keep(#[trigger] items[i]),
    ensures
        items.filter(keep) == items,
    decreases items.len(),
{
    reveal(Seq::filter);
    if items.len() > 0 {
        let less = items.drop_last();
        assert forall|i: int| 0 <= i < less.len() implies keep(#[trigger] less[i]) by {
            assert(less[i] == items[i]);
        }
        lemma_filter_all(less, keep);
        assert(keep(items[items.len() - 1]));
        assert(less.push(items.last()) =~= items);
    } else {
        assert(items.filter(keep) =~= items);
    }
}

/// A file in a directory is called what it is called, its stem and its extension
/// are the two sides of the last dot, and an absolute name does without the
/// directory.
pub proof fn law_file_is_called_by_its_name(
    dir: Seq<char>,
    stem: Seq<char>,
    ext: Seq<char>,
)
    requires
        stem.len() > 0 && !stem.contains('/'),
        !ext.contains('/') && !ext.contains('.'),
        ext.len() > 0,
    ensures
        ({
            let name = stem + seq!['.'] + ext;
            let path = path_join(dir, name);
            &&& ends_with(path, name)
            &&& dir.len() > 0 ==> starts_with(path, dir)
            &&& dir.len() > 0 && dir.last() != '/' ==> path[dir.len() as int] == '/'
            &&& file_name(path) == Some(name)
            &&& file_stem(path) == Some(stem)
            &&& extension(path) == Some(ext)
            &&& path_join(dir, seq!['/'] + name) == seq!['/'] + name
        }),
{
    reveal_strlit("/");
    reveal_strlit(".");
    reveal_strlit("..");
    let name = stem + seq!['.'] + ext;
    let path = path_join(dir, name);
    assert(stem.contains(stem[0]));
    assert(name[0] == stem[0]);
    assert(!name.contains('/')) by {
        if name.contains('/') {
            let k = choose|k: int| 0 <= k < name.len() && name[k] == '/';
            if k < stem.len() {
                assert(stem.contains(stem[k]));
            } else if k > stem.len() {
                assert(ext.contains(ext[k - stem.len() - 1]));
            }
        }
    }
    assert(path.skip(path.len() - name.len()) =~= name);
    if dir.len() > 0 {
        assert(path.take(dir.len() as int) =~= dir);
    }
    let before = path.take(path.len() - name.len());
    assert(path =~= before + name);
    lemma_last_piece(before, name);
    assert(name.len() >= 3);
    assert("."@.len() == 1 && ".."@.len() == 2);
    assert(file_name(path) == Some(name));
    lemma_last_dot(stem, ext, name.len() as int);
    assert(name.take(stem.len() as int) =~= stem);
    assert(name.skip(stem.len() as int + 1) =~= ext);
    assert((seq!['/'] + name)[0] == '/');
}

proof fn lemma_last_dot(stem: Seq<char>, ext: Seq<char>, end: int)
    requires
        stem.len() > 0,
        !ext.contains('.'),
        stem.len() + 1 <= end <= stem.len() + 1 + ext.len(),
    ensures
        last_dot(stem + seq!['.'] + ext, end) == Some(stem.len() as int),
    decreases end,
{
    let name = stem + seq!['.'] + ext;
    if end > stem.len() + 1 {
        assert(name[end - 1] == ext[end - 1 - stem.len() - 1]);
        assert(ext.contains(ext[end - 1 - stem.len() - 1]));
        lemma_last_dot(stem, ext, end - 1);
    } else {
        assert(name[end - 1] == '.');
    }
}

/// The last piece of a path is what stands behind its last slash.
proof fn lemma_last_piece(before: Seq<char>, name: Seq<char>)
    requires
        !name.contains('/'),
        name.len() > 1,
        before.len() == 0 || before.last() == '/',
    ensures
        last_piece(split(before + name, '/')) == Some(name),
{
    reveal_strlit(".");
    lemma_split_tail(before, name, Seq::empty());
    let ps = split(before + name, '/');
    assert(ps.last() == name);
    assert("."@.len() == 1);
}

proof fn lemma_split_tail(before: Seq<char>, name: Seq<char>, cur: Seq<char>)
    requires
        !name.contains('/'),
        before.len() == 0 || before.last() == '/',
        before.len() == 0 ==> cur.len() == 0,
    ensures
        split_from(before + name, cur, '/').len() > 0,
        split_from(before + name, cur, '/').last() == name,
    decreases before.len(),
{
    if before.len() == 0 {
        assert(before + name =~= name);
        lemma_split_whole(name, cur);
        assert(cur + name =~= name);
    } else {
        let rest = before.skip(1);
        assert((before + name).skip(1) =~= rest + name);
        assert((before + name)[0] == before[0]);
        if rest.len() > 0 {
            assert(rest.last() == before.last());
        }
        if before[0] == '/' {
            lemma_split_tail(rest, name, Seq::empty());
            let later = split_from(rest + name, Seq::empty(), '/');
            assert((seq![cur] + later).last() == later.last());
        } else {
            lemma_split_tail(rest, name, cur.push(before[0]));
        }
    }
}

proof fn lemma_split_whole(name: Seq<char>, cur: Seq<char>)
    requires
        !name.contains('/'),
    ensures
        split_from(name, cur, '/') == seq![cur + name],
    decreases name.len(),
{
    if name.len() == 0 {
        assert(cur + name =~= cur);
    } else {
        assert(name.contains(name[0]));
        let rest = name.skip(1);
        assert(!rest.contains('/')) by {
            if rest.contains('/') {
                let k = choose|k: int| 0 <= k < rest.len() && rest[k] == '/';
                assert(name[k + 1] == '/');
            }
        }
        lemma_split_whole(rest, cur.push(name[0]));
        assert(cur.push(name[0]) + rest =~= cur + name);
    }
}

/// The directory of the user goes before the shared ones, which keep their order.
/// Without a setting, the user's is under the home directory.
pub proof fn law_user_data_goes_first(
    data_home: Option<Seq<char>>,
    home: Option<Seq<char>>,
    dirs: Seq<Seq<char>>,
)
    requires
        dirs.len() > 0,
        forall|i: int| 0 <= i < dirs.len() ==> (#[trigger] dirs[i]).len() > 0 && !dirs[i].contains(':'),
    ensures
        ({
            let all = data_dirs(data_home, home, Some(join(dirs, seq![':'])));
            let mine = if data_home is Some || home is Some {
                1int
            } else {
                0int
            };
            &&& all.len() == mine + dirs.len()
            &&& all.skip(mine) == dirs
            &&& data_home is Some ==> all[0] == data_home->0
            &&& data_home is None && home is Some ==> all[0] == path_join(
                home->0,
                ".local/share"@,
            )
            &&& data_dirs(data_home, home, None) == data_dirs(data_home, home, Some(Seq::empty()))
        }),
{
    law_list_items_come_back(dirs, ':');
    let text = join(dirs, seq![':']);
    assert(text.len() > 0) by {
        if text.len() == 0 {
            assert(text =~= Seq::<char>::empty());
        }
    }
    let all = data_dirs(data_home, home, Some(text));
    if data_home is Some || home is Some {
        assert(all.skip(1) =~= dirs);
    } else {
        assert(all.skip(0) =~= dirs);
    }
}

// ---------------------------------------------------------------------------
// Laws on the locale
// ---------------------------------------------------------------------------

/// The locales to accept go from the most particular to the most general: with the
/// country before without, and with the modifier before without. The encoding
/// changes nothing.
pub proof fn law_particular_locales_go_first(
    lang: Seq<char>,
    country: Seq<char>,
    modifier: Seq<char>,
    encoding: Seq<char>,
)
    requires
        lang.len() > 0,
        !lang.contains('_') && !lang.contains('@') && !lang.contains('.'),
        !country.contains('@') && !country.contains('.'),
        !modifier.contains('.'),
    ensures
        ({
            let full = lang + seq!['_'] + country;
            &&& candidates(lang) == seq![lang]
            &&& candidates(full) == seq![full, lang]
            &&& candidates(full + seq!['@'] + modifier) == seq![
                full + "@"@ + modifier,
                full,
                lang + "@"@ + modifier,
                lang,
            ]
            &&& candidates(lang + seq!['@'] + modifier) == seq![lang + "@"@ + modifier, lang]
            &&& candidates(full + seq!['.'] + encoding) == candidates(full)
            &&& candidates(Seq::<char>::empty()).len() == 0
        }),
{
    reveal_strlit("@");
    assert("@"@ =~= seq!['@']);
    let full = lang + seq!['_'] + country;
    let with = full + seq!['@'] + modifier;
    let short = lang + seq!['@'] + modifier;
    assert(!full.contains('@') && !full.contains('.')) by {
        lemma_not_within(lang, '_', country, '@');
        lemma_not_within(lang, '_', country, '.');
    }
    assert(!with.contains('.')) by {
        lemma_not_within(full, '@', modifier, '.');
    }
    assert(!short.contains('.')) by {
        lemma_not_within(lang, '@', modifier, '.');
    }
    lemma_find_none(lang, '.');
    lemma_find_none(lang, '@');
    lemma_find_none(lang, '_');
    lemma_find_none(full, '.');
    lemma_find_none(full, '@');
    lemma_find_in(lang, country, '_');
    lemma_find_none(with, '.');
    lemma_find_in(full, modifier, '@');
    lemma_find_none(short, '.');
    lemma_find_in(lang, modifier, '@');
    lemma_find_in(full, encoding, '.');
    assert(lang.take(lang.len() as int) =~= lang);
    assert(full.take(full.len() as int) =~= full);
    assert(full.take(lang.len() as int) =~= lang);
    assert(with.take(with.len() as int) =~= with);
    assert(with.take(full.len() as int) =~= full);
    assert(short.take(short.len() as int) =~= short);
    assert(short.take(lang.len() as int) =~= lang);
    let coded = full + seq!['.'] + encoding;
    assert(coded.take(full.len() as int) =~= full);
    let none = Seq::<Seq<char>>::empty();
    let f = |b: Seq<char>| b + "@"@ + modifier;
    assert(full.len() > lang.len());
    assert(none + seq![lang] =~= seq![lang]);
    assert(seq![full] + seq![lang] =~= seq![full, lang]);
    assert(seq![full].map_values(f) =~= seq![full + "@"@ + modifier]);
    assert(seq![full].map_values(f) + seq![full] + seq![lang + "@"@ + modifier, lang] =~= seq![
        full + "@"@ + modifier,
        full,
        lang + "@"@ + modifier,
        lang,
    ]);
    assert(none.map_values(f) + none + seq![lang + "@"@ + modifier, lang] =~= seq![
        lang + "@"@ + modifier,
        lang,
    ]);
}

proof fn lemma_not_within(a: Seq<char>, b: char, c: Seq<char>, x: char)
    requires
        !a.contains(x),
        !c.contains(x),
        b != x,
    ensures
        !(a + seq![b] + c).contains(x),
{
    let all = a + seq![b] + c;
    if all.contains(x) {
        let k = choose|k: int| 0 <= k < all.len() && all[k] == x;
        if k < a.len() {
            assert(a.contains(a[k]));
        } else if k > a.len() {
            assert(c.contains(c[k - a.len() - 1]));
        }
    }
}

/// Of the variables for the locale the first one that is set counts, and the plain
/// locale asks for nothing.
pub proof fn law_first_variable_names_the_locale(
    a: Option<Seq<char>>,
    b: Option<Seq<char>>,
    c: Option<Seq<char>>,
)
    ensures
        a is Some ==> first_set(a, b, c) == a,
        a is None && b is Some ==> first_set(a, b, c) == b,
        a is None && b is None ==> first_set(a, b, c) == c,
        locale_named(None).len() == 0,
        locale_named(Some("C"@)).len() == 0 && locale_named(Some("POSIX"@)).len() == 0,
        a is Some && a->0 != "C"@ && a->0 != "POSIX"@ ==> locale_named(a) == a->0,
        desktops_named(None).len() == 0,
        a is Some ==> desktops_named(a) == listed(a->0, ':'),
{
}

// ---------------------------------------------------------------------------
// Laws on launching
// ---------------------------------------------------------------------------

/// A program that was found can be executed and is the one that was asked for: a
/// path as it stands, a bare name in the first of the directories that has it. If
/// it was not found, none of them has it.
pub proof fn law_found_program_can_be_executed<F: Fn(&str) -> bool>(
    program: Seq<char>,
    dirs: Seq<Seq<char>>,
    is_executable: F,
    r: Option<Seq<char>>,
)
    requires
        resolved(program, dirs, is_executable, r),
    ensures
        r matches Some(p) ==> answers(is_executable, p, true) && program.len() > 0 && ends_with(
            p,
            program,
        ),
        r is Some && program.contains('/') ==> r == Some(program),
        r is None && program.len() > 0 && program.contains('/') ==> answers(
            is_executable,
            program,
            false,
        ),
        r is None && program.len() > 0 && !program.contains('/') ==> forall|j: int|
            0 <= j < dirs.len() ==> answers(
                is_executable,
                path_join(#[trigger] dirs[j], program),
                false,
            ),
        program.len() == 0 ==> r is None,
{
    if let Some(p) = r {
        if program.contains('/') {
            assert(p.skip(0) =~= p);
        } else {
            assert(exists|i: int| 0 <= i < dirs.len() && p == path_join(#[trigger] dirs[i], program));
            let i = choose|i: int| 0 <= i < dirs.len() && p == path_join(#[trigger] dirs[i], program);
            assert(program[0] != '/') by {
                assert(program.contains(program[0]));
            }
            assert(p.skip(p.len() - program.len()) =~= program);
        }
    }
}

/// The terminal that the user chose is the one that is used, if it is there. The
/// command begins with a terminal that is there.
pub proof fn law_chosen_terminal_is_used<F: Fn(&str) -> bool>(
    terminal: Option<Seq<char>>,
    resolves: F,
    r: Option<Seq<Seq<char>>>,
)
    requires
        prefix_of(terminal, resolves, r),
    ensures
        r matches Some(p) ==> p.len() > 0 && answers(resolves, p[0], true),
        terminal is Some && terminal->0.len() > 0 && !answers(resolves, terminal->0, false) ==> r is Some
            && r->0[0] == terminal->0,
        r is None && terminal is Some && terminal->0.len() > 0 ==> answers(
            resolves,
            terminal->0,
            false,
        ),
{
}

/// Each terminal is told to run the rest of the line in its own way, wherever it is
/// installed, and one that is not known in the common way.
pub proof fn law_terminals_run_the_rest_of_the_line(dir: Seq<char>, t: Seq<char>)
    ensures
        chosen_args(dir + "foot"@) == seq!["-e"@],
        chosen_args(dir + "alacritty"@) == seq!["-e"@],
        chosen_args(dir + "kitty"@) == Seq::<Seq<char>>::empty(),
        chosen_args(dir + "wezterm"@) == seq!["start"@, "--"@],
        chosen_args(dir + "gnome-terminal"@) == seq!["--"@],
        chosen_args(dir + "xterm"@) == seq!["-e"@],
        (forall|i: int| 0 <= i < 6 ==> !ends_with(t, #[trigger] terminal_names()[i])) ==> chosen_args(t)
            == seq!["-e"@],
{
    reveal_strlit("foot");
    reveal_strlit("alacritty");
    reveal_strlit("kitty");
    reveal_strlit("wezterm");
    reveal_strlit("gnome-terminal");
    reveal_strlit("xterm");
    reveal_with_fuel(terminal_kind, 8);
    let n = terminal_names();
    assert(n[0] == "foot"@ && n[1] == "alacritty"@ && n[2] == "kitty"@ && n[3] == "wezterm"@ && n[4]
        == "gnome-terminal"@ && n[5] == "xterm"@);
    lemma_ends(dir, "foot"@);
    lemma_ends(dir, "alacritty"@);
    lemma_ends(dir, "kitty"@);
    lemma_ends(dir, "wezterm"@);
    lemma_ends(dir, "gnome-terminal"@);
    lemma_ends(dir, "xterm"@);
    assert("foot"@.len() == 4 && "alacritty"@.len() == 9 && "kitty"@.len() == 5);
    assert("wezterm"@.len() == 7 && "gnome-terminal"@.len() == 14 && "xterm"@.len() == 5);
    lemma_other_end(dir, "alacritty"@, "foot"@, 1);
    lemma_other_end(dir, "kitty"@, "foot"@, 1);
    lemma_other_end(dir, "kitty"@, "alacritty"@, 5);
    lemma_other_end(dir, "wezterm"@, "foot"@, 1);
    lemma_other_end(dir, "wezterm"@, "alacritty"@, 1);
    lemma_other_end(dir, "wezterm"@, "kitty"@, 1);
    lemma_other_end(dir, "gnome-terminal"@, "foot"@, 1);
    lemma_other_end(dir, "gnome-terminal"@, "alacritty"@, 1);
    lemma_other_end(dir, "gnome-terminal"@, "kitty"@, 1);
    lemma_other_end(dir, "gnome-terminal"@, "wezterm"@, 1);
    lemma_other_end(dir, "xterm"@, "foot"@, 1);
    lemma_other_end(dir, "xterm"@, "alacritty"@, 1);
    lemma_other_end(dir, "xterm"@, "kitty"@, 1);
    lemma_other_end(dir, "xterm"@, "wezterm"@, 5);
    lemma_other_end(dir, "xterm"@, "gnome-terminal"@, 1);
}

proof fn lemma_ends(dir: Seq<char>, name: Seq<char>)
    ensures
        ends_with(dir + name, name),
{
    assert((dir + name).skip((dir + name).len() - name.len()) =~= name);
}

/// Names that differ in their `k`-th character from the end do not end alike.
proof fn lemma_other_end(dir: Seq<char>, name: Seq<char>, other: Seq<char>, k: int)
    requires
        0 < k <= name.len(),
        k <= other.len(),
        name[name.len() - k] != other[other.len() - k],
    ensures
        !ends_with(dir + name, other),
{
    let t = dir + name;
    if ends_with(t, other) {
        let end = t.skip(t.len() - other.len());
        assert(end[other.len() - k] == t[t.len() - k]);
        assert(t[t.len() - k] == name[name.len() - k]);
    }
}

/// An entry with a line to run is launched by it, and one without through the
/// launcher for D-Bus, with its file; where it offers neither, not at all.
pub proof fn law_entry_is_launched_by_its_line<F: Fn(&str) -> bool>(
    e: EntryView,
    terminal: Option<Seq<char>>,
    resolves: F,
    r: Option<LaunchView>,
)
    requires
        launched(e, terminal, resolves, r),
        !e.terminal,
    ensures
        e.exec_line.len() == 0 && !e.dbus_activatable ==> r is None,
        e.exec_line.len() == 0 && e.dbus_activatable ==> r is Some && r->0.argv == seq![
            "gio"@,
            "launch"@,
            e.desktop_file,
        ],
        e.exec_line.len() > 0 && r is Some ==> r->0.argv == argv(
            e.exec_line,
            ContextView { icon: e.icon, name: e.name, desktop_file: e.desktop_file },
        ),
        r is Some ==> r->0.cwd == e.path,
{
}

/// The catalog holds the first entry of each id, and every id that was found.
pub proof fn law_first_entry_of_an_id_wins(found: Seq<Option<EntryView>>, i: int)
    requires
        0 <= i < found.len(),
        found[i] is Some,
        forall|j: int|
            0 <= j < i ==> !((#[trigger] found[j]) is Some && (found[j]->0).id == (found[i]->0).id),
    ensures
        first_of_each(found).contains(found[i]->0),
    decreases found.len(),
{
    let less = found.drop_last();
    let so_far = first_of_each(less);
    let all = first_of_each(found);
    let e = found[i]->0;
    if i < less.len() {
        assert(less[i] == found[i]);
        assert forall|j: int| 0 <= j < i implies !((#[trigger] less[j]) is Some && (less[j]->0).id == (
        less[i]->0).id) by {
            assert(less[j] == found[j]);
        }
        law_first_entry_of_an_id_wins(less, i);
        let k = choose|k: int| 0 <= k < so_far.len() && so_far[k] == e;
        assert(all[k] == e);
    } else {
        assert(!has_id(so_far, e.id)) by {
            if has_id(so_far, e.id) {
                let k = choose|k: int| 0 <= k < so_far.len() && (#[trigger] so_far[k]).id == e.id;
                lemma_was_found(less, k);
                let j = choose|j: int| 0 <= j < less.len() && #[trigger] less[j] == Some(so_far[k]);
                assert(found[j] == less[j]);
            }
        }
        assert(all[all.len() - 1] == e);
    }
}

proof fn lemma_was_found(found: Seq<Option<EntryView>>, k: int)
    requires
        0 <= k < first_of_each(found).len(),
    ensures
        exists|j: int| 0 <= j < found.len() && #[trigger] found[j] == Some(first_of_each(found)[k]),
    decreases found.len(),
{
    let less = found.drop_last();
    let so_far = first_of_each(less);
    if k < so_far.len() {
        lemma_was_found(less, k);
        let j = choose|j: int| 0 <= j < less.len() && #[trigger] less[j] == Some(so_far[k]);
        assert(found[j] == less[j]);
    } else {
        assert(found[found.len() - 1] == Some(first_of_each(found)[k]));
    }
}

/// Whether a file that [`parse_desktop_in`] reads gives an entry: never one that is
/// hidden, that is no application or that belongs to another desktop; always one
/// that nothing keeps from being shown.
pub proof fn law_file_gives_an_entry_unless_it_rules_itself_out<F: Fn(&str) -> bool>(
    path: &str,
    contents: &str,
    env: &DesktopEnv,
    resolves: F,
    r: Option<AppEntry>,
)
    requires
        call_ensures(parse_desktop_in::<F>, (path, contents, env, resolves), r),
    ensures
        ({
            let ps = pairs(contents@);
            let out = rules_itself_out(path@, ps, texts(env.locales@), texts(env.desktops@));
            &&& says(ps, "Hidden"@, "true"@) ==> r is None
            &&& says(ps, "NoDisplay"@, "true"@) ==> r is None
            &&& !says(ps, "Type"@, "Application"@) ==> r is None
            &&& file_stem(path@) is None ==> r is None
            &&& out ==> r is None
            &&& !out && is_silent(ps, "TryExec"@) ==> r is Some
            &&& !out ==> forall|p: Seq<char>| #[trigger]
                says(ps, "TryExec"@, p) ==> (r is Some ==> answers(resolves, p, true)) && (r is None
                    ==> answers(resolves, p, false))
        }),
{
    law_hidden_entries_are_not_shown(
        path@,
        contents@,
        texts(env.locales@),
        texts(env.desktops@),
        resolves,
        entry_of(r),
    );
}

/// What the entry that [`parse_desktop_in`] returns holds, setting by setting.
pub proof fn law_read_entry_holds_its_settings<F: Fn(&str) -> bool>(
    path: &str,
    contents: &str,
    env: &DesktopEnv,
    resolves: F,
    e: AppEntry,
)
    requires
        call_ensures(parse_desktop_in::<F>, (path, contents, env, resolves), Some(e)),
    ensures
        ({
            let ps = pairs(contents@);
            &&& file_stem(path@) == Some(e.id@) && e.desktop_file@ == path@
            &&& forall|v: Seq<char>| #[trigger] says(ps, "Exec"@, v) ==> e.exec_line@ == v
            &&& is_silent(ps, "Exec"@) ==> e.exec_line@.len() == 0 && e.dbus_activatable
            &&& forall|v: Seq<char>| #[trigger] says(ps, "Icon"@, v) ==> e.icon@ == v
            &&& is_silent(ps, "Icon"@) ==> e.icon@.len() == 0
            &&& forall|v: Seq<char>| text_of(e.path) == Some(v) <==> #[trigger] says(ps, "Path"@, v)
            &&& e.terminal <==> says(ps, "Terminal"@, "true"@)
            &&& e.dbus_activatable <==> says(ps, "DBusActivatable"@, "true"@)
            &&& forall|v: Seq<char>| #[trigger]
                says(ps, "Categories"@, v) ==> texts(e.categories@) == listed(v, ';')
            &&& is_silent(ps, "Categories"@) ==> e.categories@.len() == 0
            &&& exists|i: int|
                0 <= i < ps.len() && (#[trigger] ps[i]).key == "Name"@ && ps[i].value == e.name@ && (
                ps[i].locale is None || texts(env.locales@).contains(ps[i].locale->0))
        }),
{
    assert(entry_of(Some(e)) == Some(e@));
    law_entry_holds_what_the_file_says(
        path@,
        contents@,
        texts(env.locales@),
        texts(env.desktops@),
        resolves,
        e@,
    );
    assert(texts(e.categories@).len() == e.categories@.len());
}

/// A file that is written setting by setting, with `Hidden` or `NoDisplay` set to
/// true in its last such line, gives no entry, whatever else it says.
pub proof fn law_written_hidden_entry_is_not_shown<F: Fn(&str) -> bool>(
    path: &str,
    contents: &str,
    env: &DesktopEnv,
    resolves: F,
    r: Option<AppEntry>,
    ws: Seq<WrittenPair>,
    k: int,
)
    requires
        call_ensures(parse_desktop_in::<F>, (path, contents, env, resolves), r),
        contents@ == "[Desktop Entry]\n"@ + entry_lines(ws),
        forall|i: int| 0 <= i < ws.len() ==> (#[trigger] ws[i]).wf(),
        0 <= k < ws.len(),
        ws[k].key == "Hidden"@ || ws[k].key == "NoDisplay"@,
        ws[k].value == "true"@,
        forall|j: int| k < j < ws.len() ==> (#[trigger] ws[j]).key != ws[k].key,
    ensures
        r is None,
{
    law_written_entry_reads_back(ws);
    let ps = pairs(contents@);
    assert(ps[k] == ws[k].read());
    reveal_strlit("true");
    reveal_with_fuel(unescaped, 5);
    assert(unescaped("true"@) =~= "true"@);
    assert forall|j: int| k < j < ps.len() implies (#[trigger] ps[j]).key != ws[k].key by {
        assert(ps[j] == ws[j].read());
    }
    assert(says(ps, ws[k].key, "true"@));
    law_file_gives_an_entry_unless_it_rules_itself_out(path, contents, env, resolves, r);
}

/// The catalog lists every id that was found, each once, and of an id that was
/// found more than once the first entry.
pub proof fn law_catalog_lists_each_id_once(found: Vec<Option<AppEntry>>, r: Vec<AppEntry>, i: int)
    requires
        call_ensures(scan_apps, (found,), r),
        0 <= i < found@.len(),
        found@[i] is Some,
    ensures
        forall|a: int, b: int| 0 <= a < b < r@.len() ==> (#[trigger] r@[a]).id@ != (#[trigger] r@[b]).id@,
        exists|a: int| 0 <= a < r@.len() && (#[trigger] r@[a]).id@ == (found@[i]->0).id@,
        (forall|j: int|
            0 <= j < i ==> !((#[trigger] found@[j]) is Some && (found@[j]->0).id@ == (found@[i]->0).id@))
            ==> exists|a: int| 0 <= a < r@.len() && (#[trigger] r@[a])@ == (found@[i]->0)@,
{
    let fs = found_views(found@);
    let es = entry_views(r@);
    assert(fs[i] == Some((found@[i]->0)@));
    law_catalog_ids_are_unique(fs);
    assert forall|a: int, b: int| 0 <= a < b < r@.len() implies (#[trigger] r@[a]).id@ != (
    #[trigger] r@[b]).id@ by {
        assert(es[a].id == r@[a].id@);
        assert(es[b].id == r@[b].id@);
    }
    assert(has_id(es, (found@[i]->0).id@));
    let a = choose|a: int| 0 <= a < es.len() && (#[trigger] es[a]).id == (found@[i]->0).id@;
    assert(r@[a].id@ == (found@[i]->0).id@);
    if forall|j: int|
        0 <= j < i ==> !((#[trigger] found@[j]) is Some && (found@[j]->0).id@ == (found@[i]->0).id@) {
        assert forall|j: int| 0 <= j < i implies !((#[trigger] fs[j]) is Some && (fs[j]->0).id == (
        fs[i]->0).id) by {
            let f = found@[j];
            assert(fs[j] == entry_of(f));
        }
        law_first_entry_of_an_id_wins(fs, i);
        let c = choose|c: int| 0 <= c < es.len() && es[c] == fs[i]->0;
        assert(r@[c]@ == (found@[i]->0)@);
    }
}

/// Whether an entry with the given lists is shown: where it names desktops to be
/// shown in, those alone decide.
pub proof fn law_lists_of_desktops_decide(
    only: &Option<String>,
    not: &Option<String>,
    current: &Vec<String>,
    r: bool,
)
    requires
        call_ensures(show_in_this_desktop, (only, not, current), r),
    ensures
        *only matches Some(l) ==> (r <==> shares_a_name(l@, texts(current@))),
        *only is None ==> (*not matches Some(l) ==> (r <==> !shares_a_name(l@, texts(current@)))),
        *only is None && *not is None ==> r,
{
    law_entries_keep_to_their_desktops(text_of(*only), text_of(*not), texts(current@));
}

/// A value that was escaped is read back as it was.
pub proof fn law_value_is_unescaped(value: &Vec<char>, r: Vec<char>, v: Seq<char>, hard: Seq<bool>)
    requires
        call_ensures(unescape_value, (value,), r),
        hard.len() == v.len(),
        value@ == value_escaped(v, hard),
    ensures
        r@ == v,
{
    law_escaped_value_reads_back(v, hard);
}

/// The locales that are tried for a name such as `de_AT.UTF-8@euro`, the most
/// particular first.
pub proof fn law_locale_is_tried_in_every_form(
    raw: &str,
    r: Vec<String>,
    lang: Seq<char>,
    country: Seq<char>,
    modifier: Seq<char>,
    encoding: Seq<char>,
)
    requires
        call_ensures(locale_candidates, (raw,), r),
        lang.len() > 0,
        !lang.contains('_') && !lang.contains('@') && !lang.contains('.'),
        !country.contains('@') && !country.contains('.'),
        !modifier.contains('.'),
    ensures
        ({
            let full = lang + seq!['_'] + country;
            &&& raw@ == lang ==> texts(r@) == seq![lang]
            &&& raw@ == full ==> texts(r@) == seq![full, lang]
            &&& raw@ == full + seq!['@'] + modifier ==> texts(r@) == seq![
                full + "@"@ + modifier,
                full,
                lang + "@"@ + modifier,
                lang,
            ]
            &&& raw@ == lang + seq!['@'] + modifier ==> texts(r@) == seq![
                lang + "@"@ + modifier,
                lang,
            ]
            &&& raw@ == full + seq!['.'] + encoding ==> texts(r@) == seq![full, lang]
            &&& raw@.len() == 0 ==> r@.len() == 0
        }),
{
    law_particular_locales_go_first(lang, country, modifier, encoding);
    if raw@.len() == 0 {
        assert(raw@ =~= Seq::<char>::empty());
        assert(texts(r@).len() == r@.len());
    }
}

/// The directories that are searched: the user's own first, then those that are
/// listed, in their order.
pub proof fn law_data_directories_are_listed(
    data_home: &Option<String>,
    home: &Option<String>,
    dirs: &Option<String>,
    r: Vec<String>,
    list: Seq<Seq<char>>,
)
    requires
        call_ensures(xdg_data_dirs, (data_home, home, dirs), r),
        list.len() > 0,
        forall|i: int| 0 <= i < list.len() ==> (#[trigger] list[i]).len() > 0 && !list[i].contains(':'),
        text_of(*dirs) == Some(join(list, seq![':'])),
    ensures
        *data_home matches Some(d) ==> texts(r@) == seq![d@] + list,
        *data_home is None ==> (*home matches Some(h) ==> texts(r@) == seq![
            path_join(h@, ".local/share"@),
        ] + list),
        *data_home is None && *home is None ==> texts(r@) == list,
{
    law_user_data_goes_first(text_of(*data_home), text_of(*home), list);
    let all = texts(r@);
    if *data_home is Some || *home is Some {
        assert(all =~= seq![all[0]] + all.skip(1));
    } else {
        assert(all =~= all.skip(0));
    }
}

/// A program that is found can be executed; one with a slash is looked for nowhere
/// else, and one without is found wherever one of the directories has it.
pub proof fn law_program_is_looked_for_where_it_may_be<F: Fn(&str) -> bool>(
    program: &str,
    dirs: &Vec<String>,
    is_executable: F,
    r: Option<String>,
)
    requires
        call_ensures(resolve_program::<F>, (program, dirs, is_executable), r),
    ensures
        r matches Some(p) ==> answers(is_executable, p@, true) && program@.len() > 0 && ends_with(
            p@,
            program@,
        ),
        r matches Some(p) ==> (program@.contains('/') ==> p@ == program@),
        r is None && program@.len() > 0 && program@.contains('/') ==> answers(
            is_executable,
            program@,
            false,
        ),
        r is None && program@.len() > 0 && !program@.contains('/') ==> forall|j: int|
            0 <= j < dirs@.len() ==> answers(
                is_executable,
                path_join((#[trigger] dirs@[j])@, program@),
                false,
            ),
        program@.len() == 0 ==> r is None,
{
    let ds = texts(dirs@);
    law_found_program_can_be_executed(program@, ds, is_executable, text_of(r));
    if r is None && program@.len() > 0 && !program@.contains('/') {
        assert forall|j: int| 0 <= j < dirs@.len() implies answers(
            is_executable,
            path_join((#[trigger] dirs@[j])@, program@),
            false,
        ) by {
            assert(ds[j] == dirs@[j]@);
        }
    }
}

/// The terminal that a command runs in can be executed, and it is the chosen one
/// unless that one cannot.
pub proof fn law_command_runs_in_the_chosen_terminal<F: Fn(&str) -> bool>(
    terminal: &Option<String>,
    resolves: F,
    r: Option<Vec<String>>,
)
    requires
        call_ensures(terminal_prefix::<F>, (terminal, resolves), r),
    ensures
        r matches Some(v) ==> v@.len() > 0 && answers(resolves, v@[0]@, true),
        *terminal matches Some(t) ==> (t@.len() > 0 && !answers(resolves, t@, false) ==> (r matches Some(v)
            && v@[0]@ == t@)),
        *terminal matches Some(t) ==> (r is None && t@.len() > 0 ==> answers(resolves, t@, false)),
{
    match r {
        Some(v) => {
            law_chosen_terminal_is_used(text_of(*terminal), resolves, Some(texts(v@)));
            assert(texts(v@).len() == v@.len());
            assert(texts(v@)[0] == v@[0]@);
        },
        None => {
            law_chosen_terminal_is_used(text_of(*terminal), resolves, None);
        },
    }
}

/// What an entry is launched by: its line, where it has one, in a terminal where it
/// asks for one; over D-Bus where it has none and may be.
pub proof fn law_entry_is_launched_as_it_asks<F: Fn(&str) -> bool>(
    entry: &AppEntry,
    terminal: &Option<String>,
    resolves: F,
    r: Option<LaunchCommand>,
)
    requires
        call_ensures(launch_command::<F>, (entry, terminal, resolves), r),
    ensures
        r matches Some(c) ==> c.argv@.len() > 0 && text_of(c.cwd) == text_of(entry.path),
        !entry.terminal && entry.exec_line@.len() == 0 && !entry.dbus_activatable ==> r is None,
        !entry.terminal && entry.exec_line@.len() == 0 && entry.dbus_activatable ==> (r matches Some(c)
            && texts(c.argv@) == seq!["gio"@, "launch"@, entry.desktop_file@]),
        r matches Some(c) ==> (!entry.terminal && entry.exec_line@.len() > 0 ==> texts(c.argv@) == argv(
            entry.exec_line@,
            ContextView {
                icon: entry.icon@,
                name: entry.name@,
                desktop_file: entry.desktop_file@,
            },
        )),
        r matches Some(c) ==> (entry.terminal && entry.exec_line@.len() > 0 ==> ({
            let bare = argv(
                entry.exec_line@,
                ContextView {
                    icon: entry.icon@,
                    name: entry.name@,
                    desktop_file: entry.desktop_file@,
                },
            );
            c.argv@.len() > bare.len() && texts(c.argv@).skip(c.argv@.len() - bare.len()) == bare
        })),
{
    match r {
        Some(c) => {
            law_launch_has_a_program(entry@, text_of(*terminal), resolves, Some(c@));
            if !entry.terminal {
                law_entry_is_launched_by_its_line(entry@, text_of(*terminal), resolves, Some(c@));
            }
            assert(texts(c.argv@).len() == c.argv@.len());
        },
        None => {
            if !entry.terminal {
                law_entry_is_launched_by_its_line(entry@, text_of(*terminal), resolves, None);
            }
        },
    }
}

/// The id of a file, and whether it is a desktop file, go by the name that follows
/// the last slash of its path.
pub proof fn law_path_is_read_from_its_end(
    path: &str,
    s: Option<String>,
    d: bool,
    dir: Seq<char>,
    stem: Seq<char>,
    ext: Seq<char>,
)
    requires
        call_ensures(stem_of, (path,), s),
        call_ensures(is_desktop_file, (path,), d),
        stem.len() > 0 && !stem.contains('/'),
        ext.len() > 0 && !ext.contains('/') && !ext.contains('.'),
        path@ == path_join(dir, stem + seq!['.'] + ext),
    ensures
        s matches Some(t) && t@ == stem,
        d <==> ext == "desktop"@,
{
    law_file_is_called_by_its_name(dir, stem, ext);
}

/// A list holds what was joined with its separator, also where one follows the last
/// item; an empty list holds nothing.
pub proof fn law_list_is_taken_apart(s: &str, sep: char, r: Vec<String>, items: Seq<Seq<char>>)
    requires
        call_ensures(list_of, (s, sep), r),
        items.len() > 0,
        forall|i: int| 0 <= i < items.len() ==> (#[trigger] items[i]).len() > 0 && !items[i].contains(
            sep,
        ),
    ensures
        s@ == join(items, seq![sep]) ==> texts(r@) == items,
        s@ == join(items, seq![sep]).push(sep) ==> texts(r@) == items,
        s@.len() == 0 ==> r@.len() == 0,
{
    law_list_items_come_back(items, sep);
    if s@.len() == 0 {
        assert(s@ =~= Seq::<char>::empty());
        assert(texts(r@).len() == r@.len());
    }
}

/// A path ends with the name that was joined to it; an absolute name replaces the
/// directory.
pub proof fn law_name_goes_behind_the_directory(dir: &str, name: &str, r: String)
    requires
        call_ensures(join_path, (dir, name), r),
    ensures
        ends_with(r@, name@),
        name@.len() > 0 && name@[0] == '/' ==> r@ == name@,
        (name@.len() == 0 || name@[0] != '/') && dir@.len() > 0 && dir@.last() != '/' ==> r@ == dir@
            + seq!['/'] + name@,
        (name@.len() == 0 || name@[0] != '/') && dir@.len() > 0 && dir@.last() == '/' ==> r@ == dir@
            + name@,
{
    reveal_strlit("/");
    assert("/"@ =~= seq!['/']);
    let at = r@.len() - name@.len();
    assert(r@.subrange(at, at + name@.len()) =~= name@);
}

/// A key with a locale in brackets is split into both; one without is left as it is.
pub proof fn law_locale_is_split_off(
    key: &Vec<char>,
    r: (Vec<char>, Option<Vec<char>>),
    name: Seq<char>,
    locale: Seq<char>,
)
    requires
        call_ensures(split_locale, (key,), r),
        !name.contains('['),
    ensures
        key@ == name + seq!['['] + locale + seq![']'] ==> r.0@ == name && (r.1 matches Some(l) && l@
            == locale),
        key@ == name ==> r.0@ == name && r.1 is None,
{
    let rest = locale + seq![']'];
    lemma_found_behind(name, '[', rest);
    assert(name + seq!['['] + locale + seq![']'] =~= name + seq!['['] + rest);
    if key@ == name + seq!['['] + locale + seq![']'] {
        assert(key@.take(name.len() as int) =~= name);
        assert(key@.skip(name.len() as int + 1) =~= rest);
        assert(rest.drop_last() =~= locale);
    }
}

/// The variables of the locale count in their order, and the desktops are those that
/// are listed.
pub proof fn law_environment_names_locale_and_desktops<F: Fn(&str) -> Option<String>>(
    var: F,
    r: DesktopEnv,
    all: Option<Seq<char>>,
    messages: Option<Seq<char>>,
    lang: Option<Seq<char>>,
    desktops: Option<Seq<char>>,
)
    requires
        call_ensures(DesktopEnv::from_env::<F>, (var,), r),
        forall|x: Option<String>| #[trigger] answers(var, "LC_ALL"@, x) ==> text_of(x) == all,
        forall|x: Option<String>| #[trigger] answers(var, "LC_MESSAGES"@, x) ==> text_of(x) == messages,
        forall|x: Option<String>| #[trigger] answers(var, "LANG"@, x) ==> text_of(x) == lang,
        forall|x: Option<String>| #[trigger]
            answers(var, "XDG_CURRENT_DESKTOP"@, x) ==> text_of(x) == desktops,
    ensures
        ({
            let named = if all is Some {
                all
            } else if messages is Some {
                messages
            } else {
                lang
            };
            &&& named is None || named == Some("C"@) || named == Some("POSIX"@) ==> r.locales@.len() == 0
            &&& named is Some && named != Some("C"@) && named != Some("POSIX"@) ==> texts(r.locales@)
                == candidates(named->0)
            &&& desktops is None ==> r.desktops@.len() == 0
            &&& desktops matches Some(d) ==> texts(r.desktops@) == listed(d, ':')
        }),
{
    let named = first_set(all, messages, lang);
    law_first_variable_names_the_locale(all, messages, lang);
    law_first_variable_names_the_locale(named, None, None);
    law_first_variable_names_the_locale(desktops, None, None);
    law_particular_locales_go_first(seq!['x'], Seq::empty(), Seq::empty(), Seq::empty());
    assert(texts(r.locales@).len() == r.locales@.len());
    assert(texts(r.desktops@).len() == r.desktops@.len());
    assert(locale_named(None) =~= Seq::<char>::empty());
    assert(locale_named(Some("C"@)) =~= Seq::<char>::empty());
    assert(locale_named(Some("POSIX"@)) =~= Seq::<char>::empty());
}

proof fn lemma_no_dot_behind(name: Seq<char>, end: int)
    requires
        forall|i: int| 0 < i < name.len() ==> #[trigger] name[i] != '.',
        end <= name.len(),
    ensures
        last_dot(name, end) is None,
    decreases end,
{
    if end > 1 {
        assert(name[end - 1] != '.');
        lemma_no_dot_behind(name, end - 1);
    }
}

/// A dot that a name starts with begins no extension: such a file, and one without a
/// dot, has its whole name for a stem and is no desktop file.
pub proof fn law_leading_dot_begins_no_extension(
    path: &str,
    s: Option<String>,
    d: bool,
    dir: Seq<char>,
    name: Seq<char>,
)
    requires
        call_ensures(stem_of, (path,), s),
        call_ensures(is_desktop_file, (path,), d),
        name.len() > 1 && !name.contains('/'),
        forall|i: int| 0 < i < name.len() ==> #[trigger] name[i] != '.',
        path@ == path_join(dir, name),
    ensures
        s matches Some(t) && t@ == name,
        !d,
{
    reveal_strlit("/");
    reveal_strlit(".");
    reveal_strlit("..");
    assert(name.contains(name[0]));
    assert(path@.skip(path@.len() - name.len()) =~= name);
    let before = path@.take(path@.len() - name.len());
    assert(path@ =~= before + name);
    lemma_last_piece(before, name);
    assert(name[1] != '.');
    assert(".."@[1] == '.');
    assert("."@.len() == 1);
    assert(file_name(path@) == Some(name));
    lemma_no_dot_behind(name, name.len() as int);
}

} // verus!
