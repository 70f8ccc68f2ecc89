//! Keeping IDA's `LUMINA_TLS` setting switched off: the decision on the current
//! value, the choice of the shell's rc file, and the rewrite of that file's text.
use vstd::prelude::*;
use crate::text::{chars_of, free_of, join_with, push_char, split_on};

verus! {

/// Whether `c` has Unicode's `White_Space` property, as `char::is_whitespace` tests.
pub open spec fn is_unicode_whitespace(c: char) -> bool {
    ||| '\u{9}' <= c <= '\u{d}'
    ||| c == ' '
    ||| c == '\u{85}'
    ||| c == '\u{a0}'
    ||| c == '\u{1680}'
    ||| '\u{2000}' <= c <= '\u{200a}'
    ||| c == '\u{2028}'
    ||| c == '\u{2029}'
    ||| c == '\u{202f}'
    ||| c == '\u{205f}'
    ||| c == '\u{3000}'
}

/// `s` without its leading whitespace.
pub open spec fn trim_start(s: Seq<char>) -> Seq<char>
    decreases s.len(),
{
    if s.len() > 0 && is_unicode_whitespace(s[0]) {
        trim_start(s.drop_first())
    } else {
        s
    }
}

/// `s` without its trailing whitespace.
pub open spec fn trim_end(s: Seq<char>) -> Seq<char>
    decreases s.len(),
{
    if s.len() > 0 && is_unicode_whitespace(s.last()) {
        trim_end(s.drop_last())
    } else {
        s
    }
}

/// `s` without leading and trailing whitespace.
pub open spec fn trim(s: Seq<char>) -> Seq<char> {
    trim_end(trim_start(s))
}

/// `c` with an ASCII capital letter turned to lower case.
pub open spec fn ascii_lower(c: char) -> char {
    if 'A' <= c <= 'Z' {
        ((c as u32) + 32) as char
    } else {
        c
    }
}

/// Whether `a` and `b` are equal when ASCII letters are compared without case.
pub open spec fn eq_ignore_ascii_case(a: Seq<char>, b: Seq<char>) -> bool {
    &&& a.len() == b.len()
    &&& forall|i: int| 0 <= i < a.len() ==> ascii_lower(a[i]) == ascii_lower(b[i])
}

/// Whether `LUMINA_TLS` must be set to `false`: when it is unset, or when its value,
/// trimmed, is `true` in any case.
pub open spec fn tls_needs_change(current: Option<Seq<char>>) -> bool {
    match current {
        None => true,
        Some(v) => eq_ignore_ascii_case(trim(v), "true"@),
    }
}

/// Whether `p` occurs in `s`.
pub open spec fn contains_seq(s: Seq<char>, p: Seq<char>) -> bool {
    exists|i: int| 0 <= i <= s.len() - p.len() && #[trigger] s.subrange(i, i + p.len()) == p
}

/// The rc file that a shell reads: `.zshrc` when its path mentions `zsh`, else `.bashrc`.
pub open spec fn rc_file_for(shell: Seq<char>) -> Seq<char> {
    if contains_seq(shell, "zsh"@) {
        ".zshrc"@
    } else {
        ".bashrc"@
    }
}

/// Whether `s` starts with `p`.
pub open spec fn starts_with(s: Seq<char>, p: Seq<char>) -> bool {
    p.len() <= s.len() && s.take(p.len() as int) == p
}

/// `line` without one trailing carriage return.
pub open spec fn strip_cr(line: Seq<char>) -> Seq<char> {
    if line.len() > 0 && line.last() == '\r' {
        line.drop_last()
    } else {
        line
    }
}

/// The lines of `s`, as `str::lines` yields them: split at `'\n'`, a `'\r'` before a
/// `'\n'` removed, and no line after a final `'\n'`.
pub open spec fn text_lines(s: Seq<char>) -> Seq<Seq<char>> {
    let pieces = split_on(s, '\n');
    let body = pieces.drop_last().map_values(|p: Seq<char>| strip_cr(p));
    if pieces.last().len() == 0 {
        body
    } else {
        body.push(pieces.last())
    }
}

/// The line that switches TLS off.
pub open spec fn export_line() -> Seq<char> {
    "export LUMINA_TLS=false"@
}

/// Whether `line` sets `LUMINA_TLS`: after leading whitespace it starts with
/// `export LUMINA_TLS=` and is not the commented form `#export LUMINA_TLS=`.
pub open spec fn sets_tls(line: Seq<char>) -> bool {
    let t = trim_start(line);
    !starts_with(t, "#export LUMINA_TLS="@) && starts_with(t, "export LUMINA_TLS="@)
}

/// Index of the first line that sets `LUMINA_TLS`, or the number of lines.
pub open spec fn first_setting(lines: Seq<Seq<char>>) -> int
    decreases lines.len(),
{
    if lines.len() == 0 {
        0
    } else if sets_tls(lines[0]) {
        0
    } else {
        1 + first_setting(lines.drop_first())
    }
}

/// The lines of the rewritten rc file: the first line that sets `LUMINA_TLS` becomes
/// `export LUMINA_TLS=false`; without one, that line is appended, after an empty
/// line when the text is not empty and does not end with `'\n'`.
pub open spec fn rewritten_lines(content: Seq<char>) -> Seq<Seq<char>> {
    let lines = text_lines(content);
    let k = first_setting(lines);
    if k < lines.len() {
        lines.update(k, export_line())
    } else if content.len() > 0 && content.last() != '\n' {
        lines.push(Seq::empty()).push(export_line())
    } else {
        lines.push(export_line())
    }
}

/// `s` with a `'\n'` added unless it already ends with one.
pub open spec fn with_final_newline(s: Seq<char>) -> Seq<char> {
    if s.len() > 0 && s.last() == '\n' {
        s
    } else {
        s.push('\n')
    }
}

/// The rewritten text of an rc file: its rewritten lines joined with `'\n'`, ending in `'\n'`.
pub open spec fn rc_with_export(content: Seq<char>) -> Seq<char> {
    with_final_newline(join_with(rewritten_lines(content), '\n'))
}

/// Whether `c` is whitespace.
fn is_whitespace_char(c: char) -> (yes: bool)
    ensures
        yes == is_unicode_whitespace(c),
{
    ('\u{9}' <= c && c <= '\u{d}') || c == ' ' || c == '\u{85}' || c == '\u{a0}' || c
        == '\u{1680}' || ('\u{2000}' <= c && c <= '\u{200a}') || c == '\u{2028}' || c
        == '\u{2029}' || c == '\u{202f}' || c == '\u{205f}' || c == '\u{3000}'
}

/// Number of whitespace characters that `s` starts with, from index `from`.
fn skip_whitespace(s: &Vec<char>, from: usize) -> (start: usize)
    requires
        from <= s.len(),
    ensures
        from <= start <= s.len(),
        s@.skip(start as int) == trim_start(s@.skip(from as int)),
{
    let mut i = from;
    while i < s.len() && is_whitespace_char(s[i])
        invariant
            from <= i <= s.len(),
            trim_start(s@.skip(from as int)) == trim_start(s@.skip(i as int)),
        decreases s.len() - i,
    {
        assert(s@.skip(i as int).drop_first() =~= s@.skip(i + 1));
        i += 1;
    }
    i
}

/// The bounds of `s` without leading and trailing whitespace.
fn trim_bounds(s: &Vec<char>) -> (bounds: (usize, usize))
    ensures
        bounds.0 <= bounds.1 <= s.len(),
        s@.subrange(bounds.0 as int, bounds.1 as int) == trim(s@),
{
    let start = skip_whitespace(s, 0);
    assert(s@.skip(0) =~= s@);
    let mut end = s.len();
    assert(s@.subrange(start as int, end as int) =~= s@.skip(start as int));
    while end > start && is_whitespace_char(s[end - 1])
        invariant
            start <= end <= s.len(),
            s@.skip(start as int) == trim_start(s@),
            trim_end(s@.subrange(start as int, s.len() as int)) == trim_end(
                s@.subrange(start as int, end as int),
            ),
        decreases end,
    {
        assert(s@.subrange(start as int, end as int).drop_last() =~= s@.subrange(
            start as int,
            end - 1,
        ));
        end -= 1;
    }
    assert(s@.subrange(start as int, s.len() as int) =~= s@.skip(start as int));
    (start, end)
}

/// `c` with an ASCII capital letter turned to lower case.
fn ascii_lower_char(c: char) -> (lower: char)
    ensures
        lower == ascii_lower(c),
{
    if 'A' <= c && c <= 'Z' {
        ((c as u8) + 32) as char
    } else {
        c
    }
}

/// Whether `LUMINA_TLS` must be set to `false`, given its current value.
pub fn lumina_tls_needs_change(current: Option<&str>) -> (change: bool)
    ensures
        change == tls_needs_change(
            match current {
                Some(v) => Some(v@),
                None => None,
            },
        ),
{
    let v = match current {
        None => return true,
        Some(v) => v,
    };
    let chars = chars_of(v);
    let expected = chars_of("true");
    let (start, end) = trim_bounds(&chars);
    let ghost trimmed = chars@.subrange(start as int, end as int);
    if end - start != expected.len() {
        return false;
    }
    let mut i: usize = 0;
    while i < expected.len()
        invariant
            i <= expected.len(),
            start + expected.len() == end <= chars.len(),
            trimmed == chars@.subrange(start as int, end as int),
            trimmed == trim(v@),
            current == Some(v),
            expected@ == "true"@,
            forall|k: int| 0 <= k < i ==> ascii_lower(trimmed[k]) == ascii_lower(expected@[k]),
        decreases expected.len() - i,
    {
        if ascii_lower_char(chars[start + i]) != ascii_lower_char(expected[i]) {
            assert(trimmed[i as int] == chars@[start + i]);
            assert(ascii_lower(trimmed[i as int]) != ascii_lower(expected@[i as int]));
            assert(!eq_ignore_ascii_case(trimmed, "true"@));
            return false;
        }
        assert(trimmed[i as int] == chars@[start + i]);
        i += 1;
    }
    true
}

/// Whether `p` occurs in `s` at index `at`.
fn occurs_at(s: &Vec<char>, p: &Vec<char>, at: usize) -> (yes: bool)
    requires
        at + p.len() <= s.len(),
    ensures
        yes == (s@.subrange(at as int, at + p.len()) == p@),
{
    let mut j: usize = 0;
    while j < p.len()
        invariant
            j <= p.len(),
            at + p.len() <= s.len(),
            forall|k: int| 0 <= k < j ==> s@[at + k] == p@[k],
        decreases p.len() - j,
    {
        if s[at + j] != p[j] {
            assert(s@.subrange(at as int, at + p.len())[j as int] == s@[at + j]);
            return false;
        }
        j += 1;
    }
    assert(s@.subrange(at as int, at + p.len()) =~= p@);
    true
}

/// The rc file that `shell` reads: `.zshrc` when the path mentions `zsh`, else `.bashrc`.
pub fn rc_file_name(shell: &str) -> (name: &'static str)
    ensures
        name@ == rc_file_for(shell@),
{
    let s = chars_of(shell);
    let p = chars_of("zsh");
    proof {
        reveal_strlit("zsh");
    }
    if p.len() <= s.len() {
        let mut i: usize = 0;
        while i <= s.len() - p.len()
            invariant
                p.len() <= s.len(),
                p.len() == 3,
                i <= s.len() - p.len() + 1,
                s@ == shell@,
                p@ == "zsh"@,
                forall|k: int| 0 <= k < i ==> #[trigger] s@.subrange(k, k + p.len()) != p@,
            decreases s.len() - p.len() + 1 - i,
        {
            if occurs_at(&s, &p, i) {
                assert(contains_seq(s@, p@));
                return ".zshrc";
            }
            i += 1;
        }
    }
    ".bashrc"
}

/// The lines of `s`, as `str::lines` yields them.
pub fn lines_of(s: &Vec<char>) -> (lines: Vec<Vec<char>>)
    ensures
        lines@.map_values(|l: Vec<char>| l@) == text_lines(s@),
{
    let mut lines: Vec<Vec<char>> = Vec::new();
    let mut current: Vec<char> = Vec::new();
    let mut i: usize = 0;
    proof {
        assert(s@.take(0) =~= Seq::<char>::empty());
        assert(lines@.map_values(|l: Vec<char>| l@) =~= split_on(s@.take(0), '\n').drop_last().map_values(
            |p: Seq<char>| strip_cr(p),
        ));
    }
    while i < s.len()
        invariant
            i <= s.len(),
            lines@.map_values(|l: Vec<char>| l@) == split_on(s@.take(i as int), '\n').drop_last().map_values(
                |p: Seq<char>| strip_cr(p),
            ),
            current@ == split_on(s@.take(i as int), '\n').last(),
        decreases s.len() - i,
    {
        let ghost before = s@.take(i as int);
        let ghost pieces = split_on(before, '\n');
        let ghost old_lines = lines@.map_values(|l: Vec<char>| l@);
        proof {
            crate::text::lemma_split_nonempty(before, '\n');
            assert(s@.take(i + 1).drop_last() =~= before);
            assert(s@.take(i + 1).last() == s@[i as int]);
        }
        if s[i] == '\n' {
            let mut line = current;
            if line.len() > 0 && line[line.len() - 1] == '\r' {
                line.pop();
            }
            assert(line@ == strip_cr(pieces.last()));
            lines.push(line);
            current = Vec::new();
            proof {
                let next = split_on(s@.take(i + 1), '\n');
                assert(next == pieces.push(Seq::empty()));
                assert(next.drop_last() =~= pieces);
                assert(pieces.drop_last().push(pieces.last()) =~= pieces);
                assert(lines@.map_values(|l: Vec<char>| l@) =~= old_lines.push(strip_cr(pieces.last())));
                assert(pieces.map_values(|p: Seq<char>| strip_cr(p)) =~= pieces.drop_last().map_values(
                    |p: Seq<char>| strip_cr(p),
                ).push(strip_cr(pieces.last())));
                assert(lines@.map_values(|l: Vec<char>| l@) =~= next.drop_last().map_values(
                    |p: Seq<char>| strip_cr(p),
                ));
                assert(current@ =~= next.last());
            }
        } else {
            current.push(s[i]);
            proof {
                let next = split_on(s@.take(i + 1), '\n');
                assert(next.drop_last() =~= pieces.drop_last());
                assert(lines@.map_values(|l: Vec<char>| l@) =~= next.drop_last().map_values(
                    |p: Seq<char>| strip_cr(p),
                ));
            }
        }
        i += 1;
    }
    assert(s@.take(i as int) =~= s@);
    if current.len() > 0 {
        let ghost old_lines = lines@.map_values(|l: Vec<char>| l@);
        lines.push(current);
        assert(lines@.map_values(|l: Vec<char>| l@) =~= old_lines.push(split_on(s@, '\n').last()));
    }
    lines
}

/// `first_setting` is the first index whose line sets `LUMINA_TLS`, or the length.
proof fn lemma_first_setting(lines: Seq<Seq<char>>, i: int)
    requires
        0 <= i <= lines.len(),
        forall|k: int| 0 <= k < i ==> !sets_tls(#[trigger] lines[k]),
        i == lines.len() || sets_tls(lines[i]),
    ensures
        first_setting(lines) == i,
    decreases i,
{
    if i > 0 {
        assert(!sets_tls(lines[0]));
        assert forall|k: int| 0 <= k < i - 1 implies !sets_tls(#[trigger] lines.drop_first()[k]) by {
            assert(lines.drop_first()[k] == lines[k + 1]);
        }
        if i < lines.len() {
            assert(lines.drop_first()[i - 1] == lines[i]);
        }
        lemma_first_setting(lines.drop_first(), i - 1);
    }
}

/// Whether `line` sets `LUMINA_TLS`.
fn line_sets_tls(line: &Vec<char>, needle: &Vec<char>, comment: &Vec<char>) -> (yes: bool)
    requires
        needle@ == "export LUMINA_TLS="@,
        comment@ == "#export LUMINA_TLS="@,
    ensures
        yes == sets_tls(line@),
{
    let start = skip_whitespace(line, 0);
    assert(line@.skip(0) =~= line@);
    let ghost t = line@.skip(start as int);
    let commented = comment.len() <= line.len() - start && occurs_at(line, comment, start);
    if commented {
        assert(t.take(comment@.len() as int) =~= line@.subrange(start as int, start + comment.len()));
        return false;
    }
    assert(comment.len() <= line.len() - start ==> t.take(comment@.len() as int) =~= line@.subrange(
        start as int,
        start + comment.len(),
    ));
    let set = needle.len() <= line.len() - start && occurs_at(line, needle, start);
    assert(needle.len() <= line.len() - start ==> t.take(needle@.len() as int) =~= line@.subrange(
        start as int,
        start + needle.len(),
    ));
    set
}

/// Index of the first line that sets `LUMINA_TLS`, or the number of lines.
fn first_setting_index(lines: &Vec<Vec<char>>, needle: &Vec<char>, comment: &Vec<char>) -> (k: usize)
    requires
        needle@ == "export LUMINA_TLS="@,
        comment@ == "#export LUMINA_TLS="@,
    ensures
        k == first_setting(lines@.map_values(|l: Vec<char>| l@)),
        k <= lines.len(),
{
    let ghost views = lines@.map_values(|l: Vec<char>| l@);
    let mut i: usize = 0;
    while i < lines.len()
        invariant
            i <= lines.len(),
            views == lines@.map_values(|l: Vec<char>| l@),
            needle@ == "export LUMINA_TLS="@,
            comment@ == "#export LUMINA_TLS="@,
            forall|k: int| 0 <= k < i ==> !sets_tls(#[trigger] views[k]),
        decreases lines.len() - i,
    {
        if line_sets_tls(&lines[i], needle, comment) {
            proof {
                lemma_first_setting(views, i as int);
            }
            return i;
        }
        i += 1;
    }
    proof {
        lemma_first_setting(views, i as int);
    }
    i
}

/// The lines joined with `'\n'`.
fn join_lines(lines: &Vec<Vec<char>>) -> (joined: Vec<char>)
    ensures
        joined@ == join_with(lines@.map_values(|l: Vec<char>| l@), '\n'),
{
    let ghost views = lines@.map_values(|l: Vec<char>| l@);
    let mut joined: Vec<char> = Vec::new();
    let mut i: usize = 0;
    while i < lines.len()
        invariant
            i <= lines.len(),
            views == lines@.map_values(|l: Vec<char>| l@),
            joined@ == join_with(views.take(i as int), '\n'),
        decreases lines.len() - i,
    {
        let ghost before = joined@;
        if i > 0 {
            joined.push('\n');
        }
        let line = &lines[i];
        let ghost mid = joined@;
        let mut j: usize = 0;
        while j < line.len()
            invariant
                j <= line.len(),
                joined@ == mid + line@.take(j as int),
            decreases line.len() - j,
        {
            joined.push(line[j]);
            j += 1;
            assert(joined@ =~= mid + line@.take(j as int));
        }
        proof {
            assert(line@.take(j as int) =~= line@);
            assert(views.take(i + 1).drop_last() =~= views.take(i as int));
            assert(views.take(i + 1).last() == line@);
            if i == 0 {
                assert(views.take(1) =~= seq![line@]);
                assert(joined@ =~= line@);
            }
        }
        i += 1;
    }
    assert(views.take(i as int) =~= views);
    joined
}

/// A string holding the characters of `chars`.
fn string_of(chars: &Vec<char>) -> (s: String)
    ensures
        s@ == chars@,
{
    let mut s = String::new();
    let mut i: usize = 0;
    while i < chars.len()
        invariant
            i <= chars.len(),
            s@ == chars@.take(i as int),
        decreases chars.len() - i,
    {
        push_char(&mut s, chars[i]);
        i += 1;
        assert(s@ =~= chars@.take(i as int));
    }
    assert(chars@.take(i as int) =~= chars@);
    s
}

/// The text of an rc file after making it switch TLS off: the first line that sets
/// `LUMINA_TLS` becomes `export LUMINA_TLS=false`, or that line is appended.
pub fn rewrite_rc_content(content: &str) -> (updated: String)
    ensures
        updated@ == rc_with_export(content@),
{
    let chars = chars_of(content);
    let mut lines = lines_of(&chars);
    let needle = chars_of("export LUMINA_TLS=");
    let comment = chars_of("#export LUMINA_TLS=");
    let export = chars_of("export LUMINA_TLS=false");
    let ghost views = lines@.map_values(|l: Vec<char>| l@);
    let k = first_setting_index(&lines, &needle, &comment);
    if k < lines.len() {
        lines.set(k, export);
        assert(lines@.map_values(|l: Vec<char>| l@) =~= views.update(k as int, export_line()));
    } else {
        if chars.len() > 0 && chars[chars.len() - 1] != '\n' {
            lines.push(Vec::new());
        }
        lines.push(export);
        assert(lines@.map_values(|l: Vec<char>| l@) =~= rewritten_lines(content@));
    }
    let mut joined = join_lines(&lines);
    if !(joined.len() > 0 && joined[joined.len() - 1] == '\n') {
        joined.push('\n');
    }
    string_of(&joined)
}

/// `first_setting` lies within the lines, every line before it leaves
/// `LUMINA_TLS` alone, and the line at it, if any, sets it.
proof fn lemma_first_setting_facts(lines: Seq<Seq<char>>)
    ensures
        0 <= first_setting(lines) <= lines.len(),
        forall|j: int| 0 <= j < first_setting(lines) ==> !sets_tls(#[trigger] lines[j]),
        first_setting(lines) < lines.len() ==> sets_tls(lines[first_setting(lines)]),
    decreases lines.len(),
{
    if lines.len() > 0 && !sets_tls(lines[0]) {
        let rest = lines.drop_first();
        lemma_first_setting_facts(rest);
        assert forall|j: int| 0 <= j < first_setting(lines) implies !sets_tls(#[trigger] lines[j]) by {
            if j > 0 {
                assert(lines[j] == rest[j - 1]);
            }
        }
        if first_setting(lines) < lines.len() {
            assert(lines[first_setting(lines)] == rest[first_setting(rest)]);
        }
    }
}

/// Facts about the export line read from its text.
proof fn lemma_export_line()
    ensures
        export_line().len() > 0,
        export_line().last() != '\r',
        free_of(export_line(), '\n'),
        sets_tls(export_line()),
        strip_cr(export_line()) == export_line(),
        !sets_tls(Seq::<char>::empty()),
{
    reveal_strlit("export LUMINA_TLS=false");
    reveal_strlit("export LUMINA_TLS=");
    reveal_strlit("#export LUMINA_TLS=");
    let e = export_line();
    assert(e.len() == 23);
    assert(!is_unicode_whitespace(e[0]));
    assert(trim_start(e) == e);
    assert(e.take(18) =~= "export LUMINA_TLS="@);
    assert(e.take(19)[0] != "#export LUMINA_TLS="@[0]);
    assert(trim_start(Seq::<char>::empty()) == Seq::<char>::empty());
}

/// The lines of the text of an rc file are free of `'\n'`.
proof fn lemma_text_lines_free(s: Seq<char>)
    ensures
        forall|i: int| 0 <= i < text_lines(s).len() ==> free_of(#[trigger] text_lines(s)[i], '\n'),
{
    crate::text::lemma_split_pieces_free(s, '\n');
    crate::text::lemma_split_nonempty(s, '\n');
    let pieces = split_on(s, '\n');
    assert forall|i: int| 0 <= i < text_lines(s).len() implies free_of(
        #[trigger] text_lines(s)[i],
        '\n',
    ) by {
        if i < pieces.len() - 1 {
            assert(text_lines(s)[i] == strip_cr(pieces[i]));
            assert(free_of(pieces[i], '\n'));
        } else {
            assert(text_lines(s)[i] == pieces[pieces.len() - 1]);
        }
    }
}

/// The rewritten lines are at least one, free of `'\n'`, and hold the export line at
/// `first_setting` of the old lines, or last.
proof fn lemma_rewritten_lines(content: Seq<char>)
    ensures
        rewritten_lines(content).len() >= 1,
        forall|i: int|
            0 <= i < rewritten_lines(content).len() ==> free_of(
                #[trigger] rewritten_lines(content)[i],
                '\n',
            ),
        rewritten_lines(content)[export_index(content)] == export_line(),
        0 <= export_index(content) < rewritten_lines(content).len(),
        forall|j: int|
            0 <= j < export_index(content) ==> !sets_tls(#[trigger] rewritten_lines(content)[j]),
{
    let lines = text_lines(content);
    lemma_text_lines_free(content);
    lemma_export_line();
    lemma_first_setting_facts(lines);
    let r = rewritten_lines(content);
    assert forall|i: int| 0 <= i < r.len() implies free_of(#[trigger] r[i], '\n') by {
        if i < lines.len() && i != first_setting(lines) {
            assert(r[i] == lines[i]);
        }
    }
    assert forall|j: int| 0 <= j < export_index(content) implies !sets_tls(#[trigger] r[j]) by {
        if j < lines.len() {
            assert(r[j] == lines[j]);
        }
    }
}

/// Where the export line stands among the rewritten lines.
pub open spec fn export_index(content: Seq<char>) -> int {
    let lines = text_lines(content);
    if first_setting(lines) < lines.len() {
        first_setting(lines)
    } else {
        rewritten_lines(content).len() - 1
    }
}

/// The lines of the text that `with_final_newline` makes of joined lines: the lines
/// again, with a carriage return at their end removed, less one empty last line.
proof fn lemma_lines_of_joined(parts: Seq<Seq<char>>)
    requires
        parts.len() >= 1,
        forall|i: int| 0 <= i < parts.len() ==> free_of(#[trigger] parts[i], '\n'),
    ensures
        text_lines(with_final_newline(join_with(parts, '\n'))) == (if parts.len() >= 2
            && parts.last().len() == 0 {
            parts.drop_last().map_values(|p: Seq<char>| strip_cr(p))
        } else {
            parts.map_values(|p: Seq<char>| strip_cr(p))
        }),
{
    crate::text::lemma_join_end(parts, '\n');
    let j = join_with(parts, '\n');
    if parts.len() >= 2 && parts.last().len() == 0 {
        let front = parts.drop_last();
        assert forall|i: int| 0 <= i < front.len() implies free_of(#[trigger] front[i], '\n') by {
            assert(front[i] == parts[i]);
        }
        crate::text::lemma_split_join(front, '\n');
        let jf = join_with(front, '\n');
        assert(with_final_newline(j) == jf.push('\n'));
        crate::text::lemma_split_push_separator(jf, '\n');
        assert(split_on(jf.push('\n'), '\n').drop_last() =~= front);
    } else {
        crate::text::lemma_split_join(parts, '\n');
        assert(with_final_newline(j) == j.push('\n'));
        crate::text::lemma_split_push_separator(j, '\n');
        assert(split_on(j.push('\n'), '\n').drop_last() =~= parts);
    }
}

/// After the rewrite, the file has the line `export LUMINA_TLS=false`.
pub proof fn lemma_rewrite_has_export_line(content: Seq<char>)
    ensures
        exists|i: int|
            0 <= i < text_lines(rc_with_export(content)).len() && #[trigger] text_lines(
                rc_with_export(content),
            )[i] == export_line(),
{
    lemma_rewritten_lines(content);
    lemma_export_line();
    let r = rewritten_lines(content);
    let k = export_index(content);
    lemma_lines_of_joined(r);
    let out_lines = text_lines(rc_with_export(content));
    if r.len() >= 2 && r.last().len() == 0 {
        assert(k < r.len() - 1);
        assert(out_lines[k] == strip_cr(r[k]));
    } else {
        assert(out_lines[k] == strip_cr(r[k]));
    }
}

/// Rewriting the rewritten text changes nothing, unless the rewritten lines end in
/// two empty lines or one of them ends with a carriage return: `str::lines` drops
/// one trailing empty line and strips such a carriage return when the text is read again.
pub proof fn lemma_rewrite_idempotent(content: Seq<char>)
    requires
        forall|i: int|
            0 <= i < rewritten_lines(content).len() ==> strip_cr(#[trigger] rewritten_lines(content)[i])
                == rewritten_lines(content)[i],
        !(rewritten_lines(content).len() >= 2 && rewritten_lines(content).last().len() == 0
            && rewritten_lines(content)[rewritten_lines(content).len() - 2].len() == 0),
    ensures
        rc_with_export(rc_with_export(content)) == rc_with_export(content),
{
    lemma_rewritten_lines(content);
    lemma_export_line();
    let r = rewritten_lines(content);
    let k = export_index(content);
    let out1 = rc_with_export(content);
    lemma_lines_of_joined(r);
    let trailing_empty = r.len() >= 2 && r.last().len() == 0;
    let l2 = if trailing_empty { r.drop_last() } else { r };
    assert(r.map_values(|p: Seq<char>| strip_cr(p)) =~= r);
    assert(r.drop_last().map_values(|p: Seq<char>| strip_cr(p)) =~= r.drop_last());
    assert(text_lines(out1) == l2);
    if trailing_empty {
        assert(k < r.len() - 1);
    }
    assert(l2[k] == export_line());
    assert forall|j: int| 0 <= j < k implies !sets_tls(#[trigger] l2[j]) by {
        assert(l2[j] == r[j]);
    }
    lemma_first_setting(l2, k);
    assert(rewritten_lines(out1) =~= l2);
    if trailing_empty {
        let front = r.drop_last();
        assert forall|i: int| 0 <= i < front.len() implies free_of(#[trigger] front[i], '\n') by {
            assert(front[i] == r[i]);
        }
        assert(front.last().len() > 0) by {
            assert(front.last() == r[r.len() - 2]);
        }
        crate::text::lemma_join_end(front, '\n');
        crate::text::lemma_join_end(r, '\n');
        assert(rc_with_export(out1) == join_with(front, '\n').push('\n'));
    }
}

} // verus!
