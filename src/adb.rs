use crate::fs_types::FileInfo;
use crate::text::{
    after, before, chars_of, find_char, index_of, lines, parse_decimal, parse_decimal_chars,
    slice_chars, split_lines, string_of, trim, trim_chars,
};
use vstd::prelude::*;
use vstd::string::StringExecFns;
use vstd::utf8::{decode_utf8, valid_utf8};

verus! {

/// Why a device command's result could not be used.
#[derive(Debug, Clone, PartialEq, Eq, Structural)]
pub enum AdbError {
    /// The file's bytes are not UTF-8 text.
    InvalidUtf8,
}

/// Settings for running commands on an Android device through `adb`.
#[derive(Debug, Clone)]
pub struct AdbHelper {
    pub device_serial: Option<String>,
    pub adb_path: String,
    pub root: bool,
}

pub open spec fn string_views(v: Seq<String>) -> Seq<Seq<char>> {
    v.map_values(|s: String| s@)
}

/// Lines kept by `list_files`: the non-empty ones, trimmed.
pub open spec fn file_names(ls: Seq<Seq<char>>) -> Seq<Seq<char>>
    decreases ls.len(),
{
    if ls.len() == 0 {
        Seq::empty()
    } else {
        let prev = file_names(ls.drop_last());
        if ls.last().len() > 0 {
            prev.push(trim(ls.last()))
        } else {
            prev
        }
    }
}

/// Holds of a line that `find` wrote to report an error.
pub open spec fn is_find_error(l: Seq<char>) -> bool {
    l.len() >= 5 && l.take(5) == seq!['f', 'i', 'n', 'd', ':']
}

/// Lines kept by `list_folders_tree`: the non-empty ones that are no error
/// report of `find`, trimmed.
pub open spec fn folder_names(ls: Seq<Seq<char>>) -> Seq<Seq<char>>
    decreases ls.len(),
{
    if ls.len() == 0 {
        Seq::empty()
    } else {
        let prev = folder_names(ls.drop_last());
        if ls.last().len() > 0 && !is_find_error(ls.last()) {
            prev.push(trim(ls.last()))
        } else {
            prev
        }
    }
}

/// A number as `str::parse` reads it, or 0 when it cannot.
pub open spec fn parse_or_zero(s: Seq<char>, max: int) -> int {
    match parse_decimal(s, max) {
        Some(v) => v,
        None => 0,
    }
}

/// Entries of `find -printf "%T@|%p\n"` output: each line with a `|` gives
/// the path after it and the whole seconds of the time before it.
pub open spec fn timed_paths(ls: Seq<Seq<char>>) -> Seq<(Seq<char>, usize)>
    decreases ls.len(),
{
    if ls.len() == 0 {
        Seq::empty()
    } else {
        let prev = timed_paths(ls.drop_last());
        let l = ls.last();
        if index_of(l, '|', 0) >= 0 {
            prev.push((after(l, '|'), parse_or_zero(before(before(l, '|'), '.'), usize::MAX as int) as usize))
        } else {
            prev
        }
    }
}

/// Position of the entry for `user` in `m`, or -1.
pub open spec fn user_pos(m: Seq<(Seq<char>, Seq<char>)>, user: Seq<char>) -> int
    decreases m.len(),
{
    if m.len() == 0 {
        -1
    } else if m.last().0 == user {
        m.len() - 1
    } else {
        user_pos(m.drop_last(), user)
    }
}

/// `m` with `app` recorded for `user`: appended after a comma to the user's
/// entry, or as a new last entry.
pub open spec fn add_app(m: Seq<(Seq<char>, Seq<char>)>, user: Seq<char>, app: Seq<char>) -> Seq<
    (Seq<char>, Seq<char>),
> {
    let p = user_pos(m, user);
    if p < 0 {
        m.push((user, app))
    } else {
        m.update(p, (user, m[p].1 + seq![','] + app))
    }
}

/// Users and their running apps from `ps -o USER,NAME` lines: each line with
/// a space names the user before it and, trimmed, the app after it.
pub open spec fn apps_by_user(ls: Seq<Seq<char>>) -> Seq<(Seq<char>, Seq<char>)>
    decreases ls.len(),
{
    if ls.len() == 0 {
        Seq::empty()
    } else {
        let prev = apps_by_user(ls.drop_last());
        let l = ls.last();
        if index_of(l, ' ', 0) >= 0 {
            add_app(prev, before(l, ' '), trim(after(l, ' ')))
        } else {
            prev
        }
    }
}

/// The first `n - 1` pieces of `s` between `c`s, then the rest, as
/// `str::splitn(n, c)` gives them.
pub open spec fn fields(s: Seq<char>, n: nat, c: char) -> Seq<Seq<char>>
    decreases n,
{
    if n <= 1 || index_of(s, c, 0) < 0 {
        seq![s]
    } else {
        seq![before(s, c)] + fields(after(s, c), (n - 1) as nat, c)
    }
}

/// Position of the first `->` in `s` at or after `from`, or -1.
pub open spec fn arrow_index(s: Seq<char>, from: int) -> int
    decreases s.len() - from,
{
    if from < 0 || from + 1 >= s.len() {
        -1
    } else if s[from] == '-' && s[from + 1] == '>' {
        from
    } else {
        arrow_index(s, from + 1)
    }
}

/// `s` without leading quotes.
pub open spec fn strip_lead_quotes(s: Seq<char>) -> Seq<char>
    decreases s.len(),
{
    if s.len() > 0 && s[0] == '\'' {
        strip_lead_quotes(s.drop_first())
    } else {
        s
    }
}

/// `s` without trailing quotes.
pub open spec fn strip_trail_quotes(s: Seq<char>) -> Seq<char>
    decreases s.len(),
{
    if s.len() > 0 && s.last() == '\'' {
        strip_trail_quotes(s.drop_last())
    } else {
        s
    }
}

/// The path that `stat`'s `%N` names: the quoted name before any `->` target.
pub open spec fn entry_path(n: Seq<char>) -> Seq<char> {
    let a = arrow_index(n, 0);
    let name = if a < 0 {
        n
    } else {
        n.take(a)
    };
    strip_trail_quotes(strip_lead_quotes(name))
}

/// The fields of a `FileInfo`, in declaration order.
pub open spec fn info_view(i: FileInfo) -> (int, Seq<char>, int, int, int, Seq<char>, Seq<char>, int) {
    (
        i.inode as int,
        i.permissions@,
        i.created_time as int,
        i.modified_time as int,
        i.accessed_time as int,
        i.user@,
        i.group@,
        i.size as int,
    )
}

/// Metadata from the fields of `stat -c "%i|%A|%Z|%Y|%X|%U|%G|%s|%N"`;
/// a number that does not parse counts as 0.
pub open spec fn stat_info(f: Seq<Seq<char>>) -> (int, Seq<char>, int, int, int, Seq<char>, Seq<char>, int) {
    (
        parse_or_zero(f[0], usize::MAX as int),
        f[1],
        parse_or_zero(f[2], usize::MAX as int),
        parse_or_zero(f[3], usize::MAX as int),
        parse_or_zero(f[4], usize::MAX as int),
        f[5],
        f[6],
        parse_or_zero(f[7], u64::MAX as int),
    )
}

/// Entries of `stat` output lines: each line of nine `|`-separated fields
/// gives a path and its metadata; other lines are skipped.
pub open spec fn stat_entries(ls: Seq<Seq<char>>) -> Seq<(Seq<char>, (int, Seq<char>, int, int, int, Seq<char>, Seq<char>, int))>
    decreases ls.len(),
{
    if ls.len() == 0 {
        Seq::empty()
    } else {
        let prev = stat_entries(ls.drop_last());
        let f = fields(ls.last(), 9, '|');
        if f.len() >= 9 {
            prev.push((entry_path(f[8]), stat_info(f)))
        } else {
            prev
        }
    }
}

pub open spec fn char_views(v: Seq<Vec<char>>) -> Seq<Seq<char>> {
    v.map_values(|x: Vec<char>| x@)
}

/// Relies on `String::from_utf8`: it accepts exactly the UTF-8 byte strings,
/// and the string holds the characters they encode.
#[verifier::external_body]
fn utf8_to_string(bytes: Vec<u8>) -> (r: Option<String>)
    ensures
        r is Some <==> valid_utf8(bytes@),
        r is Some ==> r->0@ == decode_utf8(bytes@),
{
    String::from_utf8(bytes).ok()
}

/// The pieces of `s` as `str::splitn(n, c)` gives them.
fn split_fields(s: &Vec<char>, n: usize, c: char) -> (r: Vec<Vec<char>>)
    requires
        n >= 1,
    ensures
        char_views(r@) == fields(s@, n as nat, c),
{
    let mut out: Vec<Vec<char>> = Vec::new();
    let mut rest = slice_chars(s, 0, s.len());
    proof {
        assert(rest@ =~= s@);
    }
    let mut k: usize = n;
    let mut more = true;
    while more
        invariant
            1 <= k <= n,
            more ==> char_views(out@) + fields(rest@, k as nat, c) == fields(s@, n as nat, c),
            !more ==> char_views(out@) == fields(s@, n as nat, c),
        decreases 2 * k + (if more {
            1int
        } else {
            0int
        }),
    {
        let m = rest.len();
        let found = if k > 1 {
            find_char(&rest, c, 0)
        } else {
            None
        };
        match found {
            Some(i) => {
                let head = slice_chars(&rest, 0, i);
                let tail = slice_chars(&rest, i + 1, m);
                proof {
                    assert(head@ =~= before(rest@, c));
                    assert(tail@ =~= after(rest@, c));
                    assert(char_views(out@.push(head)) =~= char_views(out@).push(head@));
                    assert(char_views(out@).push(head@) + fields(tail@, (k - 1) as nat, c)
                        =~= char_views(out@) + fields(rest@, k as nat, c));
                }
                out.push(head);
                rest = tail;
                k = k - 1;
            },
            None => {
                proof {
                    assert(fields(rest@, k as nat, c) == seq![rest@]);
                    assert(char_views(out@.push(rest)) =~= char_views(out@) + seq![rest@]);
                }
                out.push(rest);
                rest = Vec::new();
                more = false;
            },
        }
    }
    out
}

/// `s` without leading and trailing quotes.
fn strip_quotes(s: &Vec<char>) -> (r: Vec<char>)
    ensures
        r@ == strip_trail_quotes(strip_lead_quotes(s@)),
{
    let n = s.len();
    let mut i: usize = 0;
    proof {
        assert(s@.subrange(0, n as int) =~= s@);
    }
    while i < n && s[i] == '\''
        invariant
            n == s@.len(),
            i <= n,
            strip_lead_quotes(s@) == strip_lead_quotes(s@.subrange(i as int, n as int)),
        decreases n - i,
    {
        proof {
            assert(s@.subrange(i as int, n as int).drop_first() =~= s@.subrange(i + 1, n as int));
        }
        i = i + 1;
    }
    let mut j: usize = n;
    while j > i && s[j - 1] == '\''
        invariant
            n == s@.len(),
            i <= j <= n,
            strip_trail_quotes(s@.subrange(i as int, n as int)) == strip_trail_quotes(
                s@.subrange(i as int, j as int),
            ),
        decreases j - i,
    {
        proof {
            assert(s@.subrange(i as int, j as int).drop_last() =~= s@.subrange(i as int, j - 1));
        }
        j = j - 1;
    }
    slice_chars(s, i, j)
}

/// The path that `stat`'s `%N` names.
fn path_of_name(s: &Vec<char>) -> (r: Vec<char>)
    ensures
        r@ == entry_path(s@),
{
    let n = s.len();
    let mut i: usize = 0;
    let mut cut: usize = n;
    while i < n && cut == n
        invariant
            n == s@.len(),
            i <= n,
            cut <= n,
            cut == n ==> arrow_index(s@, 0) == arrow_index(s@, i as int),
            cut < n ==> arrow_index(s@, 0) == cut,
        decreases n - i,
    {
        if i + 1 < n && s[i] == '-' && s[i + 1] == '>' {
            cut = i;
        }
        i = i + 1;
    }
    let name = slice_chars(s, 0, cut);
    proof {
        if cut == n {
            assert(name@ =~= s@);
        }
    }
    strip_quotes(&name)
}

pub(crate) fn chars_equal(a: &Vec<char>, b: &Vec<char>) -> (r: bool)
    ensures
        r == (a@ == b@),
{
    if a.len() != b.len() {
        return false;
    }
    let mut i: usize = 0;
    while i < a.len()
        invariant
            a@.len() == b@.len(),
            i <= a@.len(),
            forall|k: int| 0 <= k < i ==> a@[k] == b@[k],
        decreases a@.len() - i,
    {
        if a[i] != b[i] {
            return false;
        }
        i = i + 1;
    }
    proof {
        assert(a@ =~= b@);
    }
    true
}

fn has_find_error_prefix(l: &Vec<char>) -> (r: bool)
    ensures
        r == is_find_error(l@),
{
    if l.len() < 5 {
        return false;
    }
    let r = l[0] == 'f' && l[1] == 'i' && l[2] == 'n' && l[3] == 'd' && l[4] == ':';
    proof {
        if r {
            assert(l@.take(5) =~= seq!['f', 'i', 'n', 'd', ':']);
        } else {
            if l@.take(5) == seq!['f', 'i', 'n', 'd', ':'] {
                assert(l@.take(5)[0] == 'f');
                assert(l@.take(5)[1] == 'i');
                assert(l@.take(5)[2] == 'n');
                assert(l@.take(5)[3] == 'd');
                assert(l@.take(5)[4] == ':');
            }
        }
    }
    r
}

impl AdbHelper {
    /// A helper for the device with the given serial, or the only device
    /// attached, that runs `adb` from the search path without root.
    pub fn new(device_serial: Option<String>) -> (r: Self)
        ensures
            r.device_serial == device_serial,
            r.adb_path@ == "adb"@,
            !r.root,
    {
        AdbHelper { device_serial, adb_path: String::from_str("adb"), root: false }
    }

    /// The same helper, running shell commands as root.
    pub fn with_root(self) -> (r: Self)
        ensures
            r.root,
            r.device_serial == self.device_serial,
            r.adb_path == self.adb_path,
    {
        let mut s = self;
        s.root = true;
        s
    }

    /// The same helper, running the `adb` executable at `path`.
    pub fn with_adb_path(self, path: String) -> (r: Self)
        ensures
            r.adb_path == path,
            r.device_serial == self.device_serial,
            r.root == self.root,
    {
        let mut s = self;
        s.adb_path = path;
        s
    }

    /// `-s <serial>` when a device was named, else nothing.
    fn device_args(&self) -> (r: Vec<String>)
        ensures
            self.device_serial is None ==> r@.len() == 0,
            self.device_serial is Some ==> string_views(r@) == seq!["-s"@, self.device_serial->0@],
    {
        let mut args: Vec<String> = Vec::new();
        match &self.device_serial {
            Some(serial) => {
                args.push(String::from_str("-s"));
                args.push(String::from_str(serial.as_str()));
                proof {
                    assert(string_views(args@) =~= seq!["-s"@, serial@]);
                }
            },
            None => {},
        }
        args
    }

    /// Arguments to `adb` that run `command` in the device's shell, through
    /// `su root` when the helper runs as root.
    pub fn shell_args(&self, command: &str) -> (r: Vec<String>)
        ensures
            ({
                let dev = if self.device_serial is Some {
                    seq!["-s"@, self.device_serial->0@]
                } else {
                    Seq::<Seq<char>>::empty()
                };
                let cmd = if self.root {
                    "su root "@ + command@
                } else {
                    command@
                };
                string_views(r@) == dev + seq!["shell"@, cmd]
            }),
    {
        let mut args = self.device_args();
        let ghost dev = string_views(args@);
        args.push(String::from_str("shell"));
        let cmd = if self.root {
            let mut c = String::from_str("su root ");
            c.append(command);
            c
        } else {
            String::from_str(command)
        };
        args.push(cmd);
        proof {
            assert(string_views(args@) =~= dev + seq!["shell"@, cmd@]);
        }
        args
    }

    /// Arguments to `adb` that copy the device's file `remote` to `local`.
    pub fn pull_args(&self, remote: &str, local: &str) -> (r: Vec<String>)
        ensures
            ({
                let dev = if self.device_serial is Some {
                    seq!["-s"@, self.device_serial->0@]
                } else {
                    Seq::<Seq<char>>::empty()
                };
                string_views(r@) == dev + seq!["pull"@, remote@, local@]
            }),
    {
        let mut args = self.device_args();
        let ghost dev = string_views(args@);
        args.push(String::from_str("pull"));
        args.push(String::from_str(remote));
        args.push(String::from_str(local));
        proof {
            assert(string_views(args@) =~= dev + seq!["pull"@, remote@, local@]);
        }
        args
    }

    /// Entry names in the output of `ls`: its non-empty lines, trimmed.
    pub fn list_files(output: &str) -> (r: Vec<String>)
        ensures
            string_views(r@) == file_names(lines(output@)),
    {
        let text = chars_of(output);
        let ls = split_lines(&text);
        let ghost all = lines(text@);
        let mut out: Vec<String> = Vec::new();
        let mut i: usize = 0;
        while i < ls.len()
            invariant
                i <= ls@.len(),
                ls@.len() == all.len(),
                forall|k: int| 0 <= k < ls@.len() ==> (#[trigger] ls@[k])@ == all[k],
                string_views(out@) == file_names(all.take(i as int)),
            decreases ls@.len() - i,
        {
            let l = &ls[i];
            proof {
                assert(all.take(i + 1).drop_last() =~= all.take(i as int));
                assert(all.take(i + 1).last() == l@);
            }
            if l.len() > 0 {
                let t = trim_chars(l);
                let s = string_of(t.as_slice());
                proof {
                    assert(string_views(out@.push(s)) =~= string_views(out@).push(s@));
                }
                out.push(s);
            }
            i = i + 1;
        }
        proof {
            assert(all.take(i as int) =~= all);
        }
        out
    }

    /// Directories in the output of `find <dir> -type d -print`: its
    /// non-empty lines that report no error, trimmed.
    pub fn list_folders_tree(output: &str) -> (r: Vec<String>)
        ensures
            string_views(r@) == folder_names(lines(output@)),
    {
        let text = chars_of(output);
        let ls = split_lines(&text);
        let ghost all = lines(text@);
        let mut out: Vec<String> = Vec::new();
        let mut i: usize = 0;
        while i < ls.len()
            invariant
                i <= ls@.len(),
                ls@.len() == all.len(),
                forall|k: int| 0 <= k < ls@.len() ==> (#[trigger] ls@[k])@ == all[k],
                string_views(out@) == folder_names(all.take(i as int)),
            decreases ls@.len() - i,
        {
            let l = &ls[i];
            proof {
                assert(all.take(i + 1).drop_last() =~= all.take(i as int));
                assert(all.take(i + 1).last() == l@);
            }
            if l.len() > 0 && !has_find_error_prefix(l) {
                let t = trim_chars(l);
                let s = string_of(t.as_slice());
                proof {
                    assert(string_views(out@.push(s)) =~= string_views(out@).push(s@));
                }
                out.push(s);
            }
            i = i + 1;
        }
        proof {
            assert(all.take(i as int) =~= all);
        }
        out
    }

    /// Paths and modification times in the output of
    /// `find / -printf "%T@|%p\n"`; lines without a `|` are skipped and a
    /// time that does not parse counts as 0.
    pub fn list_all(output: &str) -> (r: Vec<(String, usize)>)
        ensures
            r@.map_values(|e: (String, usize)| (e.0@, e.1)) == timed_paths(lines(output@)),
    {
        let text = chars_of(output);
        let ls = split_lines(&text);
        let ghost all = lines(text@);
        let mut out: Vec<(String, usize)> = Vec::new();
        let mut i: usize = 0;
        while i < ls.len()
            invariant
                i <= ls@.len(),
                ls@.len() == all.len(),
                forall|k: int| 0 <= k < ls@.len() ==> (#[trigger] ls@[k])@ == all[k],
                out@.map_values(|e: (String, usize)| (e.0@, e.1)) == timed_paths(
                    all.take(i as int),
                ),
            decreases ls@.len() - i,
        {
            let l = &ls[i];
            proof {
                assert(all.take(i + 1).drop_last() =~= all.take(i as int));
                assert(all.take(i + 1).last() == l@);
            }
            let n = l.len();
            match find_char(l, '|', 0) {
                Some(bar) => {
                    let path = string_of(slice_chars(l, bar + 1, n).as_slice());
                    let head = slice_chars(l, 0, bar);
                    let secs = match find_char(&head, '.', 0) {
                        Some(dot) => slice_chars(&head, 0, dot),
                        None => slice_chars(&head, 0, head.len()),
                    };
                    let t: usize = match parse_decimal_chars(&secs, usize::MAX as u64) {
                        Some(v) => v as usize,
                        None => 0,
                    };
                    proof {
                        assert(head@ =~= before(l@, '|'));
                        assert(path@ =~= after(l@, '|'));
                        assert(secs@ =~= before(head@, '.'));
                        assert(out@.push((path, t)).map_values(|e: (String, usize)| (e.0@, e.1))
                            =~= out@.map_values(|e: (String, usize)| (e.0@, e.1)).push(
                            (path@, t),
                        ));
                    }
                    out.push((path, t));
                },
                None => {},
            }
            i = i + 1;
        }
        proof {
            assert(all.take(i as int) =~= all);
        }
        out
    }

    /// Running apps of each user in the output of `ps -o USER,NAME`, users
    /// in order of first appearance, each user's apps joined by commas;
    /// lines without a space are skipped.
    pub fn list_active_apps_users(output: &str) -> (r: Vec<(String, String)>)
        ensures
            r@.map_values(|e: (String, String)| (e.0@, e.1@)) == apps_by_user(lines(output@)),
    {
        let text = chars_of(output);
        let ls = split_lines(&text);
        let ghost all = lines(text@);
        let mut m: Vec<(Vec<char>, Vec<char>)> = Vec::new();
        let mut i: usize = 0;
        while i < ls.len()
            invariant
                i <= ls@.len(),
                ls@.len() == all.len(),
                forall|k: int| 0 <= k < ls@.len() ==> (#[trigger] ls@[k])@ == all[k],
                m@.map_values(|e: (Vec<char>, Vec<char>)| (e.0@, e.1@)) == apps_by_user(
                    all.take(i as int),
                ),
            decreases ls@.len() - i,
        {
            let l = &ls[i];
            proof {
                assert(all.take(i + 1).drop_last() =~= all.take(i as int));
                assert(all.take(i + 1).last() == l@);
            }
            let n = l.len();
            match find_char(l, ' ', 0) {
                Some(sp) => {
                    let user = slice_chars(l, 0, sp);
                    let rest = slice_chars(l, sp + 1, n);
                    let app = trim_chars(&rest);
                    proof {
                        assert(user@ =~= before(l@, ' '));
                        assert(rest@ =~= after(l@, ' '));
                    }
                    add_app_exec(&mut m, user, app);
                },
                None => {},
            }
            i = i + 1;
        }
        proof {
            assert(all.take(i as int) =~= all);
        }
        let mut out: Vec<(String, String)> = Vec::new();
        let mut j: usize = 0;
        while j < m.len()
            invariant
                j <= m@.len(),
                out@.len() == j,
                forall|k: int|
                    0 <= k < j ==> (#[trigger] out@[k]).0@ == m@[k].0@ && out@[k].1@ == m@[k].1@,
            decreases m@.len() - j,
        {
            let u = string_of(m[j].0.as_slice());
            let a = string_of(m[j].1.as_slice());
            out.push((u, a));
            j = j + 1;
        }
        proof {
            assert(out@.map_values(|e: (String, String)| (e.0@, e.1@)) =~= m@.map_values(
                |e: (Vec<char>, Vec<char>)| (e.0@, e.1@),
            ));
        }
        out
    }

    /// Paths and metadata from the output lines of
    /// `stat -c "%i|%A|%Z|%Y|%X|%U|%G|%s|%N"`; lines with fewer than nine
    /// fields are skipped and a number that does not parse counts as 0.
    pub fn load_all(output: &Vec<String>) -> (r: Vec<(String, FileInfo)>)
        ensures
            r@.map_values(|e: (String, FileInfo)| (e.0@, info_view(e.1))) == stat_entries(
                string_views(output@),
            ),
    {
        let ghost all = string_views(output@);
        let mut out: Vec<(String, FileInfo)> = Vec::new();
        let mut i: usize = 0;
        while i < output.len()
            invariant
                i <= output@.len(),
                all == string_views(output@),
                out@.map_values(|e: (String, FileInfo)| (e.0@, info_view(e.1))) == stat_entries(
                    all.take(i as int),
                ),
            decreases output@.len() - i,
        {
            let l = chars_of(output[i].as_str());
            proof {
                assert(all.take(i + 1).drop_last() =~= all.take(i as int));
                assert(all.take(i + 1).last() == l@);
            }
            let f = split_fields(&l, 9, '|');
            if f.len() >= 9 {
                proof {
                    assert(forall|k: int| 0 <= k < f@.len() ==> f@[k]@ == #[trigger] char_views(f@)[k]);
                }
                let path = string_of(path_of_name(&f[8]).as_slice());
                let info = FileInfo {
                    inode: match parse_decimal_chars(&f[0], usize::MAX as u64) {
                        Some(v) => v as usize,
                        None => 0,
                    },
                    permissions: string_of(f[1].as_slice()),
                    created_time: match parse_decimal_chars(&f[2], usize::MAX as u64) {
                        Some(v) => v as usize,
                        None => 0,
                    },
                    modified_time: match parse_decimal_chars(&f[3], usize::MAX as u64) {
                        Some(v) => v as usize,
                        None => 0,
                    },
                    accessed_time: match parse_decimal_chars(&f[4], usize::MAX as u64) {
                        Some(v) => v as usize,
                        None => 0,
                    },
                    user: string_of(f[5].as_slice()),
                    group: string_of(f[6].as_slice()),
                    size: match parse_decimal_chars(&f[7], u64::MAX) {
                        Some(v) => v,
                        None => 0,
                    },
                };
                proof {
                    let e = (path, info);
                    assert(out@.push(e).map_values(|e: (String, FileInfo)| (e.0@, info_view(e.1)))
                        =~= out@.map_values(|e: (String, FileInfo)| (e.0@, info_view(e.1))).push(
                        (path@, info_view(info)),
                    ));
                }
                out.push((path, info));
            }
            i = i + 1;
        }
        proof {
            assert(all.take(i as int) =~= all);
        }
        out
    }

    /// The text of a file read from the device.
    pub fn read_text_file(bytes: Vec<u8>) -> (r: Result<String, AdbError>)
        ensures
            r is Ok <==> valid_utf8(bytes@),
            r is Ok ==> r->Ok_0@ == decode_utf8(bytes@),
            r is Err ==> r == Err::<String, AdbError>(AdbError::InvalidUtf8),
    {
        match utf8_to_string(bytes) {
            Some(s) => Ok(s),
            None => Err(AdbError::InvalidUtf8),
        }
    }
}

fn add_app_exec(m: &mut Vec<(Vec<char>, Vec<char>)>, user: Vec<char>, app: Vec<char>)
    ensures
        final(m)@.map_values(|e: (Vec<char>, Vec<char>)| (e.0@, e.1@)) == add_app(
            old(m)@.map_values(|e: (Vec<char>, Vec<char>)| (e.0@, e.1@)),
            user@,
            app@,
        ),
{
    let ghost mv = m@.map_values(|e: (Vec<char>, Vec<char>)| (e.0@, e.1@));
    let mut k: usize = m.len();
    proof {
        assert(mv.take(k as int) =~= mv);
    }
    while k > 0
        invariant
            k <= m@.len(),
            mv == m@.map_values(|e: (Vec<char>, Vec<char>)| (e.0@, e.1@)),
            m@ == old(m)@,
            user_pos(mv, user@) == user_pos(mv.take(k as int), user@),
        decreases k,
    {
        proof {
            assert(mv.take(k as int).drop_last() =~= mv.take(k - 1));
            assert(mv.take(k as int).last() == mv[k - 1]);
        }
        if chars_equal(&m[k - 1].0, &user) {
            let p = k - 1;
            let mut joined = slice_chars(&m[p].1, 0, m[p].1.len());
            joined.push(',');
            let mut q: usize = 0;
            let ghost start = joined@;
            while q < app.len()
                invariant
                    q <= app@.len(),
                    joined@ == start + app@.take(q as int),
                decreases app@.len() - q,
            {
                joined.push(app[q]);
                proof {
                    assert(app@.take(q + 1) =~= app@.take(q as int).push(app@[q as int]));
                }
                q = q + 1;
            }
            proof {
                assert(app@.take(q as int) =~= app@);
                assert(m@[p as int].1@.subrange(0, m@[p as int].1@.len() as int) =~= m@[p as int].1@);
                assert(joined@ =~= mv[p as int].1 + seq![','] + app@);
            }
            m.set(p, (user, joined));
            proof {
                assert(m@.map_values(|e: (Vec<char>, Vec<char>)| (e.0@, e.1@)) =~= add_app(
                    mv,
                    user@,
                    app@,
                ));
            }
            return;
        }
        k = k - 1;
    }
    proof {
        assert(mv.take(0) =~= Seq::<(Seq<char>, Seq<char>)>::empty());
    }
    m.push((user, app));
    proof {
        assert(m@.map_values(|e: (Vec<char>, Vec<char>)| (e.0@, e.1@)) =~= mv.push((user@, app@)));
    }
}

} // verus!
