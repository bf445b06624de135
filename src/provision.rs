use vstd::prelude::*;
use vstd::string::*;
use crate::model::RcloneInfo;
use crate::text::{char_is_space, is_space, join2, join3, opt_chars, same_text, trim_start};

verus! {

/// The text before the first newline.
pub open spec fn first_line(s: Seq<char>) -> Seq<char>
    decreases s.len(),
{
    if s.len() == 0 || s[0] == '\n' {
        Seq::empty()
    } else {
        seq![s[0]] + first_line(s.drop_first())
    }
}

/// The leading run of non-whitespace characters.
pub open spec fn take_word(s: Seq<char>) -> Seq<char>
    decreases s.len(),
{
    if s.len() == 0 || is_space(s[0]) {
        Seq::empty()
    } else {
        seq![s[0]] + take_word(s.drop_first())
    }
}

/// What follows the leading run of non-whitespace characters.
pub open spec fn drop_word(s: Seq<char>) -> Seq<char>
    decreases s.len(),
{
    if s.len() == 0 || is_space(s[0]) {
        s
    } else {
        drop_word(s.drop_first())
    }
}

/// The second whitespace-separated word of a line, if it has one.
pub open spec fn second_word(line: Seq<char>) -> Option<Seq<char>> {
    let w = take_word(trim_start(drop_word(trim_start(line))));
    if w.len() == 0 {
        None
    } else {
        Some(w)
    }
}

/// `s` without its leading `v`s.
pub open spec fn strip_v(s: Seq<char>) -> Seq<char>
    decreases s.len(),
{
    if s.len() > 0 && s[0] == 'v' {
        strip_v(s.drop_first())
    } else {
        s
    }
}

/// The version that the output of the tool's `version` command reports: the
/// second word of its first line, without a leading `v`.
pub open spec fn version_of_output(out: Seq<char>) -> Option<Seq<char>> {
    match second_word(first_line(out)) {
        None => None,
        Some(w) => Some(strip_v(w)),
    }
}

proof fn lemma_tail_step(s: Seq<char>, i: int)
    requires
        0 <= i < s.len(),
    ensures
        s.subrange(i, s.len() as int).drop_first() =~= s.subrange(i + 1, s.len() as int),
        s.subrange(i, s.len() as int)[0] == s[i],
{
}

/// The index of the first whitespace character at or after `from`, or the length.
fn word_end(s: &str, from: usize) -> (r: usize)
    requires
        from <= s@.len(),
    ensures
        from <= r <= s@.len(),
        take_word(s@.subrange(from as int, s@.len() as int)) == s@.subrange(from as int, r as int),
        drop_word(s@.subrange(from as int, s@.len() as int)) == s@.subrange(r as int, s@.len() as int),
{
    let n = s.unicode_len();
    let mut i = from;
    assert(s@.subrange(from as int, from as int) =~= Seq::<char>::empty());
    while i < n && !char_is_space(s.get_char(i))
        invariant
            n == s@.len(),
            from <= i <= n,
            take_word(s@.subrange(from as int, n as int)) == s@.subrange(from as int, i as int) + take_word(
                s@.subrange(i as int, n as int),
            ),
            drop_word(s@.subrange(from as int, n as int)) == drop_word(s@.subrange(i as int, n as int)),
        decreases n - i,
    {
        proof {
            lemma_tail_step(s@, i as int);
            assert(s@.subrange(from as int, i as int) + seq![s@[i as int]] =~= s@.subrange(from as int, i as int + 1));
            assert(s@.subrange(from as int, i as int) + take_word(s@.subrange(i as int, n as int)) =~= s@.subrange(
                from as int,
                i as int + 1,
            ) + take_word(s@.subrange(i as int + 1, n as int)));
        }
        i = i + 1;
    }
    proof {
        if i < n {
            lemma_tail_step(s@, i as int);
        }
        assert(s@.subrange(from as int, i as int) + Seq::<char>::empty() =~= s@.subrange(from as int, i as int));
    }
    i
}

/// The index of the first non-whitespace character at or after `from`, or the length.
fn space_end(s: &str, from: usize) -> (r: usize)
    requires
        from <= s@.len(),
    ensures
        from <= r <= s@.len(),
        trim_start(s@.subrange(from as int, s@.len() as int)) == s@.subrange(r as int, s@.len() as int),
{
    let n = s.unicode_len();
    let mut i = from;
    while i < n && char_is_space(s.get_char(i))
        invariant
            n == s@.len(),
            from <= i <= n,
            trim_start(s@.subrange(from as int, n as int)) == trim_start(s@.subrange(i as int, n as int)),
        decreases n - i,
    {
        proof {
            lemma_tail_step(s@, i as int);
        }
        i = i + 1;
    }
    proof {
        if i < n {
            lemma_tail_step(s@, i as int);
        }
    }
    i
}

/// The version reported by the output of the tool's `version` command, if its
/// first line has a second word.
pub fn parse_version(output: &str) -> (r: Option<String>)
    ensures
        opt_chars(r) == version_of_output(output@),
{
    let n = output.unicode_len();
    let mut k: usize = 0;
    assert(output@.subrange(0, n as int) =~= output@);
    while k < n && output.get_char(k) != '\n'
        invariant
            n == output@.len(),
            k <= n,
            first_line(output@) == output@.subrange(0, k as int) + first_line(output@.subrange(k as int, n as int)),
        decreases n - k,
    {
        proof {
            lemma_tail_step(output@, k as int);
            assert(output@.subrange(0, k as int) + seq![output@[k as int]] =~= output@.subrange(0, k as int + 1));
            assert(output@.subrange(0, k as int) + first_line(output@.subrange(k as int, n as int)) =~= output@.subrange(
                0,
                k as int + 1,
            ) + first_line(output@.subrange(k as int + 1, n as int)));
        }
        k = k + 1;
    }
    proof {
        if k < n {
            lemma_tail_step(output@, k as int);
        }
        assert(output@.subrange(0, k as int) + Seq::<char>::empty() =~= output@.subrange(0, k as int));
    }
    let line = output.substring_char(0, k);
    let ln = line.unicode_len();
    assert(line@.subrange(0, ln as int) =~= line@);
    let a = space_end(line, 0);
    let b = word_end(line, a);
    let c = space_end(line, b);
    let d = word_end(line, c);
    if c == d {
        return None;
    }
    let mut e = c;
    while e < d && line.get_char(e) == 'v'
        invariant
            ln == line@.len(),
            c <= e <= d <= ln,
            strip_v(line@.subrange(c as int, d as int)) == strip_v(line@.subrange(e as int, d as int)),
        decreases d - e,
    {
        assert(line@.subrange(e as int, d as int).drop_first() =~= line@.subrange(e as int + 1, d as int));
        e = e + 1;
    }
    proof {
        if e < d {
            assert(line@.subrange(e as int, d as int)[0] == line@[e as int]);
        }
    }
    Some(line.substring_char(e, d).to_string())
}

/// The tool's status, given where its executable is expected and the output
/// of its `version` command when it exists and that command succeeded. No
/// output means not installed, without a version.
pub fn rclone_info(path: String, version_output: Option<String>) -> (r: RcloneInfo)
    ensures
        r.path == path,
        r.installed == version_output is Some,
        opt_chars(r.version) == match version_output {
            None => None,
            Some(o) => version_of_output(o@),
        },
{
    match version_output {
        None => RcloneInfo { version: None, path, installed: false },
        Some(o) => RcloneInfo { version: parse_version(o.as_str()), path, installed: true },
    }
}

/// `name` inside the directory `dir` of the file system, with one `sep`
/// between them unless `dir` is empty or already ends in it.
pub open spec fn os_joined(dir: Seq<char>, name: Seq<char>, sep: char) -> Seq<char> {
    if dir.len() == 0 || dir.last() == sep {
        dir + name
    } else {
        dir + seq![sep] + name
    }
}

/// The path separator of the platform.
pub open spec fn sep_of(windows: bool) -> char {
    if windows { '\\' } else { '/' }
}

/// The file name of the tool's executable.
pub open spec fn exe_name_of(windows: bool) -> Seq<char> {
    if windows { "rclone.exe"@ } else { "rclone"@ }
}

/// The directory the tool is installed into, under the local data directory `base`.
pub open spec fn install_dir_of(base: Seq<char>, windows: bool) -> Seq<char> {
    os_joined(os_joined(base, "RcloneExplorer"@, sep_of(windows)), "rclone"@, sep_of(windows))
}

fn os_join(dir: &str, name: &str, windows: bool) -> (r: String)
    ensures
        r@ == os_joined(dir@, name@, sep_of(windows)),
{
    proof {
        reveal_strlit("\\");
        reveal_strlit("/");
    }
    let sep = if windows { "\\" } else { "/" };
    let n = dir.unicode_len();
    if n == 0 || dir.get_char(n - 1) == sep.get_char(0) {
        join2(dir, name)
    } else {
        assert(sep@ =~= seq![sep_of(windows)]);
        join3(dir, sep, name)
    }
}

/// The name of the tool's executable on the platform.
pub fn exe_name(windows: bool) -> (r: String)
    ensures
        r@ == exe_name_of(windows),
{
    if windows { "rclone.exe".to_string() } else { "rclone".to_string() }
}

/// The install directory of the tool under the local data directory `base`.
pub fn install_dir_in(base: &str, windows: bool) -> (r: String)
    ensures
        r@ == install_dir_of(base@, windows),
{
    let app = os_join(base, "RcloneExplorer", windows);
    os_join(app.as_str(), "rclone", windows)
}

/// The path of the file `name` in the directory `dir`.
pub fn file_in(dir: &str, name: &str, windows: bool) -> (r: String)
    ensures
        r@ == os_joined(dir@, name@, sep_of(windows)),
{
    os_join(dir, name, windows)
}

/// The path of the tool's executable in its install directory `dir`.
pub fn exe_path_in(dir: &str, windows: bool) -> (r: String)
    ensures
        r@ == os_joined(dir@, exe_name_of(windows), sep_of(windows)),
{
    let name = exe_name(windows);
    os_join(dir, name.as_str(), windows)
}

/// Relies on `dirs::data_local_dir`: the user's local data directory, which
/// depends on the platform and the environment.
#[verifier::external_body]
fn local_data_dir() -> (r: Option<String>) {
    dirs::data_local_dir().map(|p| p.to_string_lossy().to_string())
}

/// The install directory of the tool, where the local data directory is known.
pub fn rclone_dir(windows: bool) -> (r: Option<String>)
    ensures
        r matches Some(d) ==> exists|base: Seq<char>| d@ == install_dir_of(base, windows),
{
    match local_data_dir() {
        None => None,
        Some(base) => Some(install_dir_in(base.as_str(), windows)),
    }
}

/// The platforms for which a packaged archive of the tool is fetched.
#[derive(Debug, Clone, Copy, PartialEq, Eq)]
pub enum Platform {
    Windows64,
    Windows32,
    MacOs,
    Linux,
}

/// The archive's file name for a platform.
pub open spec fn archive_name_of(p: Platform) -> Seq<char> {
    match p {
        Platform::Windows64 => "rclone-current-windows-amd64.zip"@,
        Platform::Windows32 => "rclone-current-windows-386.zip"@,
        Platform::MacOs => "rclone-current-osx-amd64.zip"@,
        Platform::Linux => "rclone-current-linux-amd64.zip"@,
    }
}

/// The address the archive is downloaded from.
pub open spec fn download_url_of(p: Platform) -> Seq<char> {
    "https://downloads.rclone.org/"@ + archive_name_of(p)
}

/// The download address and archive file name for a platform.
pub fn download_source(p: Platform) -> (r: (String, String))
    ensures
        r.0@ == download_url_of(p),
        r.1@ == archive_name_of(p),
{
    let name = match p {
        Platform::Windows64 => "rclone-current-windows-amd64.zip",
        Platform::Windows32 => "rclone-current-windows-386.zip",
        Platform::MacOs => "rclone-current-osx-amd64.zip",
        Platform::Linux => "rclone-current-linux-amd64.zip",
    };
    (join2("https://downloads.rclone.org/", name), name.to_string())
}

/// `s` ends with `t`.
pub open spec fn ends_with(s: Seq<char>, t: Seq<char>) -> bool {
    s.len() >= t.len() && s.subrange(s.len() - t.len(), s.len() as int) == t
}

/// The archive entry that holds the executable: its name ends in
/// `rclone.exe`, or ends in `rclone` and has no dot at all.
pub open spec fn is_exe_entry(name: Seq<char>) -> bool {
    ends_with(name, "rclone.exe"@) || (ends_with(name, "rclone"@) && !name.contains('.'))
}

fn text_ends_with(s: &str, t: &str) -> (r: bool)
    ensures
        r == ends_with(s@, t@),
{
    let n = s.unicode_len();
    let m = t.unicode_len();
    if n < m {
        return false;
    }
    same_text(s.substring_char(n - m, n), t)
}

fn has_dot(s: &str) -> (r: bool)
    ensures
        r == s@.contains('.'),
{
    let n = s.unicode_len();
    let mut i: usize = 0;
    while i < n
        invariant
            n == s@.len(),
            i <= n,
            forall|j: int| 0 <= j < i ==> s@[j] != '.',
        decreases n - i,
    {
        if s.get_char(i) == '.' {
            assert(s@[i as int] == '.');
            return true;
        }
        i = i + 1;
    }
    false
}

/// Whether an archive entry of this name is the tool's executable.
pub fn is_rclone_entry(name: &str) -> (r: bool)
    ensures
        r == is_exe_entry(name@),
{
    text_ends_with(name, "rclone.exe") || (text_ends_with(name, "rclone") && !has_dot(name))
}

} // verus!
