use vstd::prelude::*;
use vstd::string::*;

verus! {

/// Unicode `White_Space` characters, as `char::is_whitespace` documents them.
pub open spec fn is_space(c: char) -> bool {
    ('\u{9}' <= c && c <= '\u{d}') || c == ' ' || c == '\u{85}' || c == '\u{a0}' || c == '\u{1680}'
        || ('\u{2000}' <= c && c <= '\u{200a}') || c == '\u{2028}' || c == '\u{2029}' || c
        == '\u{202f}' || c == '\u{205f}' || c == '\u{3000}'
}

pub fn char_is_space(c: char) -> (r: bool)
    ensures
        r == is_space(c),
{
    ('\u{9}' <= c && c <= '\u{d}') || c == ' ' || c == '\u{85}' || c == '\u{a0}' || c == '\u{1680}'
        || ('\u{2000}' <= c && c <= '\u{200a}') || c == '\u{2028}' || c == '\u{2029}' || c
        == '\u{202f}' || c == '\u{205f}' || c == '\u{3000}'
}

/// `s` without its leading whitespace.
pub open spec fn trim_start(s: Seq<char>) -> Seq<char>
    decreases s.len(),
{
    if s.len() > 0 && is_space(s[0]) {
        trim_start(s.drop_first())
    } else {
        s
    }
}

/// `s` without its trailing whitespace.
pub open spec fn trim_end(s: Seq<char>) -> Seq<char>
    decreases s.len(),
{
    if s.len() > 0 && is_space(s.last()) {
        trim_end(s.drop_last())
    } else {
        s
    }
}

/// `s` without its trailing colons.
pub open spec fn strip_colons(s: Seq<char>) -> Seq<char>
    decreases s.len(),
{
    if s.len() > 0 && s.last() == ':' {
        strip_colons(s.drop_last())
    } else {
        s
    }
}

/// A line of `listremotes` output reduced to the remote's name: trimmed, then
/// stripped of the trailing separator.
pub open spec fn remote_name_of_line(line: Seq<char>) -> Seq<char> {
    strip_colons(trim_end(trim_start(line)))
}

/// `s` cut at every newline; a text without newline is one line.
pub open spec fn split_lines(s: Seq<char>) -> Seq<Seq<char>>
    decreases s.len(),
{
    if s.len() == 0 {
        seq![Seq::<char>::empty()]
    } else {
        let p = split_lines(s.drop_last());
        if s.last() == '\n' {
            p.push(Seq::<char>::empty())
        } else {
            p.update(p.len() - 1, p.last().push(s.last()))
        }
    }
}

/// The names that a sequence of lines gives, blank ones left out.
pub open spec fn names_of_lines(lines: Seq<Seq<char>>) -> Seq<Seq<char>>
    decreases lines.len(),
{
    if lines.len() == 0 {
        Seq::empty()
    } else {
        let p = names_of_lines(lines.drop_last());
        let n = remote_name_of_line(lines.last());
        if n.len() == 0 {
            p
        } else {
            p.push(n)
        }
    }
}

/// The remote names listed in the output of `listremotes`.
pub open spec fn remote_names(output: Seq<char>) -> Seq<Seq<char>> {
    names_of_lines(split_lines(output))
}

proof fn lemma_split_lines_nonempty(s: Seq<char>)
    ensures
        split_lines(s).len() >= 1,
    decreases s.len(),
{
    if s.len() > 0 {
        lemma_split_lines_nonempty(s.drop_last());
    }
}

proof fn lemma_trim_start_from(s: Seq<char>, i: int)
    requires
        0 <= i < s.len(),
        is_space(s[i]),
    ensures
        trim_start(s.subrange(i, s.len() as int)) == trim_start(s.subrange(i + 1, s.len() as int)),
{
    assert(s.subrange(i, s.len() as int).drop_first() =~= s.subrange(i + 1, s.len() as int));
}

proof fn lemma_trim_end_to(s: Seq<char>, a: int, j: int)
    requires
        0 <= a < j <= s.len(),
    ensures
        s.subrange(a, j).drop_last() =~= s.subrange(a, j - 1),
        s.subrange(a, j).last() == s[j - 1],
{
}

/// The name of a remote on one line of `listremotes` output.
pub fn remote_name_from_line(line: &str) -> (r: String)
    ensures
        r@ == remote_name_of_line(line@),
{
    let n = line.unicode_len();
    let mut a: usize = 0;
    assert(line@.subrange(0, n as int) =~= line@);
    while a < n && char_is_space(line.get_char(a))
        invariant
            n == line@.len(),
            a <= n,
            trim_start(line@) == trim_start(line@.subrange(a as int, n as int)),
        decreases n - a,
    {
        proof {
            lemma_trim_start_from(line@, a as int);
        }
        a = a + 1;
    }
    let ghost t = line@.subrange(a as int, n as int);
    assert(trim_start(line@) == t) by {
        if a < n {
            assert(t[0] == line@[a as int]);
        }
    }
    let mut b: usize = n;
    while b > a && char_is_space(line.get_char(b - 1))
        invariant
            n == line@.len(),
            a <= b <= n,
            t == line@.subrange(a as int, n as int),
            trim_end(t) == trim_end(line@.subrange(a as int, b as int)),
        decreases b - a,
    {
        proof {
            lemma_trim_end_to(line@, a as int, b as int);
        }
        b = b - 1;
    }
    assert(trim_end(t) == line@.subrange(a as int, b as int)) by {
        if b > a {
            lemma_trim_end_to(line@, a as int, b as int);
        }
    }
    let ghost u = line@.subrange(a as int, b as int);
    let mut c: usize = b;
    while c > a && line.get_char(c - 1) == ':'
        invariant
            n == line@.len(),
            a <= c <= b <= n,
            u == line@.subrange(a as int, b as int),
            strip_colons(u) == strip_colons(line@.subrange(a as int, c as int)),
        decreases c - a,
    {
        proof {
            lemma_trim_end_to(line@, a as int, c as int);
        }
        c = c - 1;
    }
    proof {
        if c > a {
            lemma_trim_end_to(line@, a as int, c as int);
        }
    }
    line.substring_char(a, c).to_string()
}

/// The remote names in the output of `listremotes`: one per line, each line
/// trimmed and stripped of its trailing colon, blank lines left out.
pub fn parse_remote_names(output: &str) -> (r: Vec<String>)
    ensures
        r@.map_values(|s: String| s@) == remote_names(output@),
{
    let n = output.unicode_len();
    let mut names: Vec<String> = Vec::new();
    let mut start: usize = 0;
    let mut i: usize = 0;
    proof {
        assert(output@.subrange(0, 0) =~= Seq::<char>::empty());
    }
    while i < n
        invariant
            n == output@.len(),
            start <= i <= n,
            split_lines(output@.subrange(0, i as int)).len() >= 1,
            split_lines(output@.subrange(0, i as int)).last() == output@.subrange(
                start as int,
                i as int,
            ),
            names@.map_values(|s: String| s@) == names_of_lines(
                split_lines(output@.subrange(0, i as int)).drop_last(),
            ),
        decreases n - i,
    {
        let ghost pre = output@.subrange(0, i as int);
        let ghost next = output@.subrange(0, i as int + 1);
        assert(next.drop_last() =~= pre);
        let c = output.get_char(i);
        proof {
            lemma_split_lines_nonempty(pre);
        }
        if c == '\n' {
            let line = output.substring_char(start, i);
            let name = remote_name_from_line(line);
            let ghost lines = split_lines(pre);
            assert(split_lines(next) == lines.push(Seq::<char>::empty()));
            assert(split_lines(next).drop_last() =~= lines);
            assert(lines.drop_last() =~= lines.subrange(0, lines.len() - 1));
            assert(lines =~= lines.drop_last().push(lines.last()));
            if name.unicode_len() > 0 {
                names.push(name);
                assert(names@.map_values(|s: String| s@) =~= names_of_lines(lines.drop_last()).push(
                    name@,
                ));
            }
            start = i + 1;
            assert(output@.subrange(start as int, i as int + 1) =~= Seq::<char>::empty());
        } else {
            let ghost lines = split_lines(pre);
            assert(split_lines(next) == lines.update(
                lines.len() - 1,
                output@.subrange(start as int, i as int).push(c),
            ));
            assert(output@.subrange(start as int, i as int).push(c) =~= output@.subrange(
                start as int,
                i as int + 1,
            ));
            assert(split_lines(next).drop_last() =~= lines.drop_last());
        }
        i = i + 1;
    }
    assert(output@.subrange(0, n as int) =~= output@);
    let ghost lines = split_lines(output@);
    assert(lines =~= lines.drop_last().push(lines.last()));
    let line = output.substring_char(start, n);
    let name = remote_name_from_line(line);
    if name.unicode_len() > 0 {
        names.push(name);
        assert(names@.map_values(|s: String| s@) =~= names_of_lines(lines.drop_last()).push(
            name@,
        ));
    }
    names
}


/// Whether two texts are the same sequence of characters.
pub fn same_text(a: &str, b: &str) -> (r: bool)
    ensures
        r == (a@ == b@),
{
    let n = a.unicode_len();
    if n != b.unicode_len() {
        return false;
    }
    let mut i: usize = 0;
    while i < n
        invariant
            n == a@.len() == b@.len(),
            i <= n,
            a@.subrange(0, i as int) == b@.subrange(0, i as int),
        decreases n - i,
    {
        if a.get_char(i) != b.get_char(i) {
            assert(a@[i as int] != b@[i as int]);
            return false;
        }
        assert(a@.subrange(0, i as int + 1) =~= a@.subrange(0, i as int).push(a@[i as int]));
        assert(b@.subrange(0, i as int + 1) =~= b@.subrange(0, i as int).push(b@[i as int]));
        i = i + 1;
    }
    assert(a@ =~= a@.subrange(0, n as int));
    assert(b@ =~= b@.subrange(0, n as int));
    true
}

/// The concatenation of two texts.
pub fn join2(a: &str, b: &str) -> (r: String)
    ensures
        r@ == a@ + b@,
{
    let mut s = a.to_string();
    s.append(b);
    s
}

/// The concatenation of three texts.
pub fn join3(a: &str, b: &str, c: &str) -> (r: String)
    ensures
        r@ == a@ + b@ + c@,
{
    let mut s = a.to_string();
    s.append(b);
    s.append(c);
    s
}


/// The characters of an optional text.
pub open spec fn opt_chars(o: Option<String>) -> Option<Seq<char>> {
    match o {
        Some(s) => Some(s@),
        None => None,
    }
}

/// The characters of an optional borrowed text.
pub open spec fn opt_str_chars(o: Option<&str>) -> Option<Seq<char>> {
    match o {
        Some(s) => Some(s@),
        None => None,
    }
}


/// A name as `listremotes` prints it: not empty, on one line, without
/// whitespace at either end, and not itself ending in the separator.
pub open spec fn plain_remote_name(n: Seq<char>) -> bool {
    &&& n.len() > 0
    &&& !n.contains('\n')
    &&& !is_space(n[0])
    &&& !is_space(n.last())
    &&& n.last() != ':'
}

/// The output of `listremotes` for these names: each followed by `:` and a newline.
pub open spec fn listing_text(names: Seq<Seq<char>>) -> Seq<char>
    decreases names.len(),
{
    if names.len() == 0 {
        Seq::empty()
    } else {
        listing_text(names.drop_last()) + names.last() + ":\n"@
    }
}

proof fn lemma_split_append_line(a: Seq<char>, b: Seq<char>)
    requires
        !b.contains('\n'),
    ensures
        split_lines(a).len() >= 1,
        split_lines(a + b) == split_lines(a).update(
            split_lines(a).len() - 1,
            split_lines(a).last() + b,
        ),
    decreases b.len(),
{
    lemma_split_lines_nonempty(a);
    if b.len() == 0 {
        assert(a + b =~= a);
        assert(split_lines(a).last() + b =~= split_lines(a).last());
        assert(split_lines(a).update(split_lines(a).len() - 1, split_lines(a).last()) =~= split_lines(a));
    } else {
        let b0 = b.drop_last();
        assert(!b0.contains('\n')) by {
            if b0.contains('\n') {
                let j = choose|j: int| 0 <= j < b0.len() && b0[j] == '\n';
                assert(b[j] == '\n');
            }
        }
        lemma_split_append_line(a, b0);
        assert((a + b).drop_last() =~= a + b0);
        assert(b.last() != '\n') by {
            assert(b[b.len() - 1] == b.last());
        }
        assert((a + b).last() == b.last());
        lemma_split_lines_nonempty(a + b0);
        let sa = split_lines(a);
        let p = split_lines(a + b0);
        assert(p.len() == sa.len());
        assert(p.last() == sa.last() + b0);
        assert(split_lines(a + b) == p.update(p.len() - 1, p.last().push(b.last())));
        assert((sa.last() + b0).push(b.last()) =~= sa.last() + b);
        assert(split_lines(a + b) =~= split_lines(a).update(
            split_lines(a).len() - 1,
            split_lines(a).last() + b,
        ));
    }
}

proof fn lemma_split_listing(names: Seq<Seq<char>>)
    requires
        forall|i: int| 0 <= i < names.len() ==> plain_remote_name(#[trigger] names[i]),
    ensures
        split_lines(listing_text(names)) == names.map_values(|n: Seq<char>| n + ":"@).push(
            Seq::<char>::empty(),
        ),
    decreases names.len(),
{
    reveal_strlit(":\n");
    reveal_strlit(":");
    if names.len() == 0 {
        assert(names.map_values(|n: Seq<char>| n + ":"@) =~= Seq::<Seq<char>>::empty());
        assert(split_lines(Seq::<char>::empty()) =~= seq![Seq::<char>::empty()]);
    } else {
        let ns = names.drop_last();
        let n = names.last();
        assert(plain_remote_name(names[names.len() - 1]));
        lemma_split_listing(ns);
        let t = listing_text(ns);
        let line = n + ":"@;
        assert(!line.contains('\n')) by {
            if line.contains('\n') {
                let j = choose|j: int| 0 <= j < line.len() && line[j] == '\n';
                if j < n.len() {
                    assert(n[j] == '\n');
                }
            }
        }
        lemma_split_append_line(t, line);
        let s = t + line + seq!['\n'];
        assert(listing_text(names) =~= s);
        assert(s.drop_last() =~= t + line);
        assert(Seq::<char>::empty() + line =~= line);
        assert(names.map_values(|n: Seq<char>| n + ":"@) =~= ns.map_values(|n: Seq<char>| n + ":"@).push(line));
        assert(split_lines(t + line) =~= ns.map_values(|n: Seq<char>| n + ":"@).push(line));
    }
}

proof fn lemma_name_of_listed_line(n: Seq<char>)
    requires
        plain_remote_name(n),
    ensures
        remote_name_of_line(n + ":"@) == n,
{
    reveal_strlit(":");
    let line = n + ":"@;
    assert(line[0] == n[0]);
    assert(trim_start(line) == line);
    assert(line.last() == ':');
    assert(trim_end(line) == line);
    assert(line.drop_last() =~= n);
    assert(strip_colons(line) == strip_colons(n));
}

proof fn lemma_names_of_listed_lines(names: Seq<Seq<char>>)
    requires
        forall|i: int| 0 <= i < names.len() ==> plain_remote_name(#[trigger] names[i]),
    ensures
        names_of_lines(names.map_values(|n: Seq<char>| n + ":"@)) == names,
    decreases names.len(),
{
    if names.len() > 0 {
        let ns = names.drop_last();
        assert(plain_remote_name(names[names.len() - 1]));
        lemma_names_of_listed_lines(ns);
        let lines = names.map_values(|n: Seq<char>| n + ":"@);
        assert(lines.drop_last() =~= ns.map_values(|n: Seq<char>| n + ":"@));
        lemma_name_of_listed_line(names.last());
        assert(names =~= ns.push(names.last()));
    } else {
        assert(names.map_values(|n: Seq<char>| n + ":"@) =~= Seq::<Seq<char>>::empty());
    }
}

/// Parsing the `listremotes` output of N plain names, each followed by its
/// colon on a line of its own, gives back exactly those N names in order.
pub proof fn lemma_listed_names_round_trip(names: Seq<Seq<char>>)
    requires
        forall|i: int| 0 <= i < names.len() ==> plain_remote_name(#[trigger] names[i]),
    ensures
        remote_names(listing_text(names)) == names,
{
    lemma_split_listing(names);
    let lines = names.map_values(|n: Seq<char>| n + ":"@);
    assert(lines.push(Seq::<char>::empty()).drop_last() =~= lines);
    assert(remote_name_of_line(Seq::<char>::empty()) =~= Seq::<char>::empty());
    lemma_names_of_listed_lines(names);
}

/// The same holds when the last name's line has no newline after it.
pub proof fn lemma_listed_names_unterminated(names: Seq<Seq<char>>)
    requires
        names.len() > 0,
        forall|i: int| 0 <= i < names.len() ==> plain_remote_name(#[trigger] names[i]),
    ensures
        remote_names(listing_text(names.drop_last()) + names.last() + ":"@) == names,
{
    reveal_strlit(":");
    let ns = names.drop_last();
    let n = names.last();
    assert(plain_remote_name(names[names.len() - 1]));
    assert forall|i: int| 0 <= i < ns.len() implies plain_remote_name(#[trigger] ns[i]) by {
        assert(ns[i] == names[i]);
    }
    lemma_split_listing(ns);
    let t = listing_text(ns);
    let line = n + ":"@;
    assert(!line.contains('\n')) by {
        if line.contains('\n') {
            let j = choose|j: int| 0 <= j < line.len() && line[j] == '\n';
            if j < n.len() {
                assert(n[j] == '\n');
            }
        }
    }
    lemma_split_append_line(t, line);
    assert(Seq::<char>::empty() + line =~= line);
    assert(t + n + ":"@ =~= t + line);
    let lines = names.map_values(|n: Seq<char>| n + ":"@);
    assert(lines =~= ns.map_values(|n: Seq<char>| n + ":"@).push(line));
    assert(split_lines(t + line) =~= lines);
    lemma_names_of_listed_lines(names);
}

} // verus!
