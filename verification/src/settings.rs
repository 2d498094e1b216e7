//! Reading Wonderdraft's `config.ini`: the `custom_assets_directory` setting
//! and its quoted, escaped value.

use vstd::prelude::*;
use vstd::string::*;

use crate::naming::{is_space, lemma_trim_both_at, lemma_trim_both_fixed, lemma_trim_start_at, split_pieces, trim_both, trim_start, whitespace};
use crate::text::{chars_of, push_char, string_from};

verus! {

/// `o` with `p` put in front of the text it holds.
pub open spec fn prepend(p: Seq<char>, o: Option<Seq<char>>) -> Option<Seq<char>> {
    match o {
        Some(r) => Some(p + r),
        None => None,
    }
}

/// What follows the first `"` of `s`, if there is one.
pub open spec fn after_first_quote(s: Seq<char>) -> Option<Seq<char>>
    decreases s.len(),
{
    if s.len() == 0 {
        None
    } else if s[0] == '"' {
        Some(s.drop_first())
    } else {
        after_first_quote(s.drop_first())
    }
}

/// The text of `s` up to the first unescaped `"`, where `\"` stands for `"`
/// and `\\` for `\`; `None` when no closing `"` comes.
pub open spec fn unescape_to_quote(s: Seq<char>) -> Option<Seq<char>>
    decreases s.len(),
{
    if s.len() == 0 {
        None
    } else if s[0] == '"' {
        Some(Seq::empty())
    } else if s[0] == '\\' && s.len() > 1 && (s[1] == '"' || s[1] == '\\') {
        prepend(seq![s[1]], unescape_to_quote(s.subrange(2, s.len() as int)))
    } else {
        prepend(seq![s[0]], unescape_to_quote(s.drop_first()))
    }
}

/// The first double-quoted string in `s`, with its escapes resolved.
pub open spec fn quoted_value(s: Seq<char>) -> Option<Seq<char>> {
    match after_first_quote(s) {
        Some(rest) => unescape_to_quote(rest),
        None => None,
    }
}

/// `s` written as the inside of a quoted value: a backslash in front of every
/// backslash and every `"`.
pub open spec fn escaped(s: Seq<char>) -> Seq<char>
    decreases s.len(),
{
    if s.len() == 0 {
        Seq::empty()
    } else if s[0] == '\\' || s[0] == '"' {
        seq!['\\', s[0]] + escaped(s.drop_first())
    } else {
        seq![s[0]] + escaped(s.drop_first())
    }
}

proof fn lemma_unescape_escaped(s: Seq<char>, rest: Seq<char>)
    ensures
        unescape_to_quote(escaped(s) + seq!['"'] + rest) == Some(s),
    decreases s.len(),
{
    let t = escaped(s) + seq!['"'] + rest;
    if s.len() == 0 {
        assert(t[0] == '"');
        assert(s =~= Seq::<char>::empty());
    } else {
        let tail = s.drop_first();
        lemma_unescape_escaped(tail, rest);
        if s[0] == '\\' || s[0] == '"' {
            assert(t =~= seq!['\\', s[0]] + (escaped(tail) + seq!['"'] + rest));
            assert(t.subrange(2, t.len() as int) =~= escaped(tail) + seq!['"'] + rest);
        } else {
            assert(t =~= seq![s[0]] + (escaped(tail) + seq!['"'] + rest));
            assert(t.drop_first() =~= escaped(tail) + seq!['"'] + rest);
        }
        assert(seq![s[0]] + tail =~= s);
    }
}

proof fn lemma_after_first_quote(a: Seq<char>, v: Seq<char>)
    requires
        forall|i: int| 0 <= i < a.len() ==> a[i] != '"',
    ensures
        after_first_quote(a + seq!['"'] + v) == Some(v),
    decreases a.len(),
{
    let t = a + seq!['"'] + v;
    if a.len() == 0 {
        assert(t =~= seq!['"'] + v);
        assert(t.drop_first() =~= v);
    } else {
        assert(t[0] == a[0]);
        assert(t.drop_first() =~= a.drop_first() + seq!['"'] + v);
        lemma_after_first_quote(a.drop_first(), v);
    }
}

/// Quoting and escaping a value, with any quote-free text before the opening
/// quote and any text after the closing one, reads back as the value.
pub proof fn law_quoted_value_round_trip(s: Seq<char>, a: Seq<char>, b: Seq<char>)
    requires
        forall|i: int| 0 <= i < a.len() ==> a[i] != '"',
    ensures
        quoted_value(a + seq!['"'] + escaped(s) + seq!['"'] + b) == Some(s),
{
    let v = escaped(s) + seq!['"'] + b;
    assert(a + seq!['"'] + escaped(s) + seq!['"'] + b =~= a + seq!['"'] + v);
    lemma_after_first_quote(a, v);
    lemma_unescape_escaped(s, b);
}

/// Text without a double quote holds no quoted value.
pub proof fn law_unquoted_text_has_no_value(v: Seq<char>)
    requires
        forall|i: int| 0 <= i < v.len() ==> v[i] != '"',
    ensures
        quoted_value(v) is None,
    decreases v.len(),
{
    if v.len() > 0 {
        law_unquoted_text_has_no_value(v.drop_first());
    }
}

/// Reads the first double-quoted string of `value`; see `quoted_value`.
pub fn parse_quoted_value(value: &str) -> (r: Option<String>)
    ensures
        match r {
            Some(v) => quoted_value(value@) == Some(v@),
            None => quoted_value(value@) is None,
        },
{
    let chars = chars_of(value);
    let n = chars.len();
    let mut i: usize = 0;
    proof {
        assert(chars@.subrange(0, n as int) =~= chars@);
    }
    while i < n && chars[i] != '"'
        invariant
            chars@ == value@,
            n == chars@.len(),
            i <= n,
            after_first_quote(chars@) == after_first_quote(chars@.subrange(i as int, n as int)),
        decreases n - i,
    {
        proof {
            assert(chars@.subrange(i as int, n as int).drop_first() =~= chars@.subrange(i + 1, n as int));
        }
        i = i + 1;
    }
    if i == n {
        proof {
            assert(chars@.subrange(n as int, n as int).len() == 0);
        }
        return None;
    }
    proof {
        assert(chars@.subrange(i as int, n as int).drop_first() =~= chars@.subrange(i + 1, n as int));
    }
    i = i + 1;
    let mut current = String::new();
    while i < n
        invariant
            chars@ == value@,
            n == chars@.len(),
            i <= n,
            quoted_value(chars@) == prepend(current@, unescape_to_quote(chars@.subrange(i as int, n as int))),
        decreases n - i,
    {
        let ghost rest = chars@.subrange(i as int, n as int);
        let ch = chars[i];
        if ch == '"' {
            proof {
                assert(current@ + Seq::<char>::empty() =~= current@);
            }
            return Some(current);
        }
        if ch == '\\' && i + 1 < n && (chars[i + 1] == '"' || chars[i + 1] == '\\') {
            let next = chars[i + 1];
            proof {
                assert(rest.subrange(2, rest.len() as int) =~= chars@.subrange(i + 2, n as int));
                let o = unescape_to_quote(chars@.subrange(i + 2, n as int));
                assert(prepend(current@, prepend(seq![next], o)) == prepend(current@.push(next), o)) by {
                    assert(current@ + (seq![next] + o.unwrap_or(Seq::empty())) =~= current@.push(next)
                        + o.unwrap_or(Seq::empty()));
                }
            }
            push_char(&mut current, next);
            i = i + 2;
        } else {
            proof {
                assert(rest.drop_first() =~= chars@.subrange(i + 1, n as int));
                let o = unescape_to_quote(chars@.subrange(i + 1, n as int));
                assert(prepend(current@, prepend(seq![ch], o)) == prepend(current@.push(ch), o)) by {
                    assert(current@ + (seq![ch] + o.unwrap_or(Seq::empty())) =~= current@.push(ch)
                        + o.unwrap_or(Seq::empty()));
                }
            }
            push_char(&mut current, ch);
            i = i + 1;
        }
    }
    None
}

/// The byte-order mark that may open a line.
pub open spec fn is_bom(c: char) -> bool {
    c == '\u{feff}'
}

/// The index of the first `c` in `s`.
pub open spec fn find_char(s: Seq<char>, c: char) -> Option<int>
    decreases s.len(),
{
    if s.len() == 0 {
        None
    } else if s[0] == c {
        Some(0)
    } else {
        match find_char(s.drop_first(), c) {
            Some(k) => Some(k + 1),
            None => None,
        }
    }
}

/// `Some(value)` when `line` is a `custom_assets_directory = "..."` setting:
/// the line is trimmed of white space and of leading byte-order marks, split
/// at its first `=`, and the trimmed key compared; `value` is the quoted text
/// after the `=`, `None` when it is not properly quoted.
pub open spec fn assets_setting(line: Seq<char>) -> Option<Option<Seq<char>>> {
    let t = trim_start(trim_both(line, |c: char| whitespace(c)), |c: char| is_bom(c));
    match find_char(t, '=') {
        None => None,
        Some(k) => if trim_both(t.subrange(0, k), |c: char| whitespace(c)) == "custom_assets_directory"@ {
            Some(quoted_value(trim_both(t.subrange(k + 1, t.len() as int), |c: char| whitespace(c))))
        } else {
            None
        },
    }
}

/// The value of the first `custom_assets_directory` setting among `lines`.
pub open spec fn first_assets_setting(lines: Seq<Seq<char>>) -> Option<Seq<char>>
    decreases lines.len(),
{
    if lines.len() == 0 {
        None
    } else {
        match assets_setting(lines[0]) {
            Some(v) => v,
            None => first_assets_setting(lines.drop_first()),
        }
    }
}

/// The `custom_assets_directory` that a `config.ini` text sets, looking at its
/// lines (split at line feeds; a carriage return before a line feed is white
/// space and is trimmed with the rest).
pub open spec fn custom_assets_directory(text: Seq<char>) -> Option<Seq<char>> {
    first_assets_setting(split_pieces(text, seq!['\n']))
}

proof fn lemma_no_separator_is_one_piece(s: Seq<char>, seps: Seq<char>)
    requires
        forall|i: int| 0 <= i < s.len() ==> !seps.contains(#[trigger] s[i]),
    ensures
        split_pieces(s, seps) == seq![s],
    decreases s.len(),
{
    if s.len() > 0 {
        let d = s.drop_last();
        assert forall|i: int| 0 <= i < d.len() implies !seps.contains(#[trigger] d[i]) by {
            assert(d[i] == s[i]);
        }
        lemma_no_separator_is_one_piece(d, seps);
        assert(!seps.contains(s[s.len() - 1]));
        assert(d.push(s.last()) =~= s);
        assert(seq![d].update(0, s) =~= seq![s]);
    } else {
        assert(s =~= Seq::<char>::empty());
    }
}

proof fn lemma_escaped_keeps_line(s: Seq<char>)
    requires
        forall|i: int| 0 <= i < s.len() ==> s[i] != '\n',
    ensures
        forall|i: int| 0 <= i < escaped(s).len() ==> escaped(s)[i] != '\n',
    decreases s.len(),
{
    if s.len() > 0 {
        let t = s.drop_first();
        assert forall|i: int| 0 <= i < t.len() implies t[i] != '\n' by {
            assert(t[i] == s[i + 1]);
        }
        lemma_escaped_keeps_line(t);
        let e = escaped(s);
        if s[0] == '\\' || s[0] == '"' {
            assert forall|i: int| 0 <= i < e.len() implies e[i] != '\n' by {
                if i >= 2 {
                    assert(e[i] == escaped(t)[i - 2]);
                }
            }
        } else {
            assert forall|i: int| 0 <= i < e.len() implies e[i] != '\n' by {
                if i >= 1 {
                    assert(e[i] == escaped(t)[i - 1]);
                }
            }
        }
    }
}

proof fn lemma_find_first(a: Seq<char>, c: char, b: Seq<char>)
    requires
        forall|i: int| 0 <= i < a.len() ==> a[i] != c,
    ensures
        find_char(a + seq![c] + b, c) == Some(a.len() as int),
    decreases a.len(),
{
    let t = a + seq![c] + b;
    if a.len() > 0 {
        assert(t[0] == a[0]);
        assert(t.drop_first() =~= a.drop_first() + seq![c] + b);
        lemma_find_first(a.drop_first(), c, b);
    } else {
        assert(t[0] == c);
    }
}

/// A `config.ini` line `custom_assets_directory="..."` that holds a folder,
/// written with `\` before each backslash and quote, sets that folder: it is
/// read back as written (for a folder name on one line).
pub proof fn law_assets_setting_reads_back(folder: Seq<char>)
    requires
        forall|i: int| 0 <= i < folder.len() ==> folder[i] != '\n',
    ensures
        custom_assets_directory(
            "custom_assets_directory"@ + seq!['='] + seq!['"'] + escaped(folder) + seq!['"'],
        ) == Some(folder),
{
    reveal_strlit("custom_assets_directory");
    let key = "custom_assets_directory"@;
    let value = seq!['"'] + escaped(folder) + seq!['"'];
    let line = key + seq!['='] + value;
    assert(line =~= "custom_assets_directory"@ + seq!['='] + seq!['"'] + escaped(folder) + seq!['"']);
    lemma_escaped_keeps_line(folder);
    assert forall|i: int| 0 <= i < line.len() implies !seq!['\n'].contains(#[trigger] line[i]) by {
        if i < key.len() {
            assert(line[i] == key[i]);
        } else if i == key.len() {
            assert(line[i] == '=');
        } else if i == key.len() + 1 {
            assert(line[i] == '"');
        } else if i < line.len() - 1 {
            assert(line[i] == escaped(folder)[i - key.len() - 2]);
        } else {
            assert(line[i] == '"');
        }
    }
    lemma_no_separator_is_one_piece(line, seq!['\n']);
    assert(line[0] == 'c');
    assert(line.last() == '"');
    lemma_trim_both_fixed(line, |c: char| whitespace(c));
    assert(trim_start(line, |c: char| is_bom(c)) == line);
    assert forall|i: int| 0 <= i < key.len() implies key[i] != '=' by {}
    lemma_find_first(key, '=', value);
    assert(line.subrange(0, key.len() as int) =~= key);
    assert(line.subrange(key.len() as int + 1, line.len() as int) =~= value);
    lemma_trim_both_fixed(key, |c: char| whitespace(c));
    assert(value[0] == '"');
    assert(value.last() == '"');
    lemma_trim_both_fixed(value, |c: char| whitespace(c));
    law_quoted_value_round_trip(folder, Seq::empty(), Seq::empty());
    assert(Seq::<char>::empty() + seq!['"'] + escaped(folder) + seq!['"'] + Seq::<char>::empty() =~= value);
    assert(assets_setting(line) == Some(Some(folder)));
    assert(seq![line].drop_first() =~= Seq::<Seq<char>>::empty());
}

/// The bounds of `v[from..to]` with white space trimmed from both ends.
fn trim_space_range(v: &Vec<char>, from: usize, to: usize) -> (r: (usize, usize))
    requires
        from <= to <= v@.len(),
    ensures
        from <= r.0 <= r.1 <= to,
        trim_both(v@.subrange(from as int, to as int), |c: char| whitespace(c)) == v@.subrange(
            r.0 as int,
            r.1 as int,
        ),
{
    let ghost strip = |c: char| whitespace(c);
    let ghost t = v@.subrange(from as int, to as int);
    let mut a = from;
    while a < to && is_space(v[a])
        invariant
            from <= a <= to,
            to <= v@.len(),
            forall|k: int| from <= k < a ==> whitespace(#[trigger] v@[k]),
        decreases to - a,
    {
        a = a + 1;
    }
    let mut b = to;
    while b > a && is_space(v[b - 1])
        invariant
            from <= a <= b <= to,
            to <= v@.len(),
            forall|k: int| b <= k < to ==> whitespace(#[trigger] v@[k]),
        decreases b,
    {
        b = b - 1;
    }
    proof {
        if a == to {
            assert(b == to);
        }
        assert forall|k: int| 0 <= k < a - from implies strip(#[trigger] t[k]) by {
            assert(t[k] == v@[k + from]);
        }
        assert forall|k: int| b - from <= k < t.len() implies strip(#[trigger] t[k]) by {
            assert(t[k] == v@[k + from]);
        }
        lemma_trim_both_at(t, strip, a - from, b - from);
        assert(t.subrange(a - from, b - from) =~= v@.subrange(a as int, b as int));
    }
    (a, b)
}

/// Whether `v[from..to]` is the text `custom_assets_directory`.
fn is_assets_key(v: &Vec<char>, from: usize, to: usize) -> (b: bool)
    requires
        from <= to <= v@.len(),
    ensures
        b == (v@.subrange(from as int, to as int) == "custom_assets_directory"@),
{
    let key = "custom_assets_directory";
    proof {
        reveal_strlit("custom_assets_directory");
    }
    let n = key.unicode_len();
    if to - from != n {
        return false;
    }
    let mut i: usize = 0;
    while i < n
        invariant
            n == key@.len(),
            key@ == "custom_assets_directory"@,
            to - from == n,
            from <= to <= v@.len(),
            i <= n,
            forall|k: int| 0 <= k < i ==> v@[from + k] == #[trigger] key@[k],
        decreases n - i,
    {
        if v[from + i] != key.get_char(i) {
            proof {
                assert(v@.subrange(from as int, to as int)[i as int] != key@[i as int]);
            }
            return false;
        }
        i = i + 1;
    }
    proof {
        assert(v@.subrange(from as int, to as int) =~= key@);
    }
    true
}

/// `assets_setting` of the line `v[from..to]`, with the value as a `String`.
fn line_assets_setting(v: &Vec<char>, from: usize, to: usize) -> (r: Option<Option<String>>)
    requires
        from <= to <= v@.len(),
    ensures
        match r {
            None => assets_setting(v@.subrange(from as int, to as int)) is None,
            Some(None) => assets_setting(v@.subrange(from as int, to as int)) == Some(
                None::<Seq<char>>,
            ),
            Some(Some(s)) => assets_setting(v@.subrange(from as int, to as int)) == Some(
                Some(s@),
            ),
        },
{
    let ghost line = v@.subrange(from as int, to as int);
    let (a, b) = trim_space_range(v, from, to);
    let ghost trimmed = v@.subrange(a as int, b as int);
    let mut a2 = a;
    while a2 < b && v[a2] == '\u{feff}'
        invariant
            a <= a2 <= b,
            b <= v@.len(),
            forall|k: int| a <= k < a2 ==> is_bom(#[trigger] v@[k]),
        decreases b - a2,
    {
        a2 = a2 + 1;
    }
    let ghost t = v@.subrange(a2 as int, b as int);
    proof {
        assert forall|k: int| 0 <= k < a2 - a implies (|c: char| is_bom(c))(#[trigger] trimmed[k]) by {
            assert(trimmed[k] == v@[k + a]);
        }
        lemma_trim_start_at(trimmed, |c: char| is_bom(c), a2 - a);
        assert(trimmed.subrange(a2 - a, trimmed.len() as int) =~= t);
    }
    let mut k = a2;
    while k < b && v[k] != '='
        invariant
            a2 <= k <= b,
            b <= v@.len(),
            t == v@.subrange(a2 as int, b as int),
            find_char(t, '=') == match find_char(v@.subrange(k as int, b as int), '=') {
                Some(j) => Some(j + (k - a2)),
                None => None::<int>,
            },
        decreases b - k,
    {
        proof {
            assert(v@.subrange(k as int, b as int).drop_first() =~= v@.subrange(k + 1, b as int));
        }
        k = k + 1;
    }
    if k == b {
        proof {
            assert(v@.subrange(k as int, b as int).len() == 0);
        }
        return None;
    }
    proof {
        assert(v@.subrange(k as int, b as int)[0] == '=');
        assert(find_char(t, '=') == Some(k - a2));
        assert(t.subrange(0, k - a2) =~= v@.subrange(a2 as int, k as int));
        assert(t.subrange(k - a2 + 1, t.len() as int) =~= v@.subrange(k + 1, b as int));
    }
    let (ka, kb) = trim_space_range(v, a2, k);
    if !is_assets_key(v, ka, kb) {
        return None;
    }
    let (va, vb) = trim_space_range(v, k + 1, b);
    let value = string_from(v, va, vb);
    Some(parse_quoted_value(value.as_str()))
}

/// The `custom_assets_directory` set in the text of a `config.ini`; see
/// `custom_assets_directory`.
pub fn parse_custom_assets_directory(text: &str) -> (r: Option<String>)
    ensures
        match r {
            Some(v) => custom_assets_directory(text@) == Some(v@),
            None => custom_assets_directory(text@) is None,
        },
{
    let chars = chars_of(text);
    let ghost seps = seq!['\n'];
    // Bounds of each line.
    let mut starts: Vec<usize> = Vec::new();
    let mut ends: Vec<usize> = Vec::new();
    let mut line_start: usize = 0;
    let mut i: usize = 0;
    while i < chars.len()
        invariant
            chars@ == text@,
            seps == seq!['\n'],
            line_start <= i <= chars@.len(),
            starts@.len() == ends@.len(),
            split_pieces(chars@.take(i as int), seps).len() == starts@.len() + 1,
            forall|j: int|
                0 <= j < starts@.len() ==> #[trigger] split_pieces(chars@.take(i as int), seps)[j]
                    == chars@.subrange(starts@[j] as int, ends@[j] as int) && starts@[j] <= ends@[j]
                    && ends@[j] <= chars@.len(),
            split_pieces(chars@.take(i as int), seps).last() == chars@.subrange(
                line_start as int,
                i as int,
            ),
        decreases chars@.len() - i,
    {
        let ghost before = split_pieces(chars@.take(i as int), seps);
        proof {
            assert(chars@.take(i + 1).drop_last() =~= chars@.take(i as int));
            assert(chars@.take(i + 1).last() == chars@[i as int]);
            assert(seps.contains(chars@[i as int]) == (chars@[i as int] == '\n')) by {
                if chars@[i as int] == '\n' {
                    assert(seps[0] == chars@[i as int]);
                }
            }
        }
        if chars[i] == '\n' {
            starts.push(line_start);
            ends.push(i);
            line_start = i + 1;
            proof {
                let after = split_pieces(chars@.take(i + 1), seps);
                assert(after == before.push(Seq::<char>::empty()));
                assert(chars@.subrange(i + 1, i + 1) =~= Seq::<char>::empty());
                assert forall|jj: int| 0 <= jj < starts@.len() implies starts@[jj] <= ends@[jj] <= chars@.len()
                    && #[trigger] after[jj] == chars@.subrange(starts@[jj] as int, ends@[jj] as int) by {
                    if jj < starts@.len() - 1 {
                        assert(after[jj] == before[jj]);
                    }
                }
            }
        } else {
            proof {
                let after = split_pieces(chars@.take(i + 1), seps);
                assert(after == before.update(before.len() - 1, before.last().push(chars@[i as int])));
                assert(before.last().push(chars@[i as int]) =~= chars@.subrange(line_start as int, i + 1));
                assert forall|jj: int| 0 <= jj < starts@.len() implies starts@[jj] <= ends@[jj] <= chars@.len()
                    && #[trigger] after[jj] == chars@.subrange(starts@[jj] as int, ends@[jj] as int) by {
                    assert(after[jj] == before[jj]);
                }
            }
        }
        proof {
            let after = split_pieces(chars@.take(i + 1), seps);
            assert forall|jj: int| 0 <= jj < starts@.len() implies #[trigger] after[jj] == chars@.subrange(
                starts@[jj] as int,
                ends@[jj] as int,
            ) && starts@[jj] <= ends@[jj] && ends@[jj] <= chars@.len() by {
                if chars@[i as int] == '\n' {
                    if jj < starts@.len() - 1 {
                        assert(after[jj] == before[jj]);
                    } else {
                        assert(after[jj] == before.last());
                    }
                } else {
                    assert(after[jj] == before[jj]);
                }
            }
        }
        i = i + 1;
    }
    starts.push(line_start);
    ends.push(i);
    let ghost lines = split_pieces(chars@, seps);
    proof {
        assert(chars@.take(i as int) =~= chars@);
        let before = split_pieces(chars@.take(i as int), seps);
        assert(before == lines);
        assert forall|jj: int| 0 <= jj < starts@.len() implies #[trigger] lines[jj] == chars@.subrange(
            starts@[jj] as int,
            ends@[jj] as int,
        ) && starts@[jj] <= ends@[jj] && ends@[jj] <= chars@.len() by {
            if jj < starts@.len() - 1 {
                assert(lines[jj] == before[jj]);
            }
        }
        assert(lines.subrange(0, lines.len() as int) =~= lines);
    }
    let mut j: usize = 0;
    while j < starts.len()
        invariant
            chars@ == text@,
            lines == split_pieces(chars@, seps),
            seps == seq!['\n'],
            starts@.len() == ends@.len(),
            lines.len() == starts@.len(),
            j <= starts@.len(),
            forall|jj: int|
                0 <= jj < starts@.len() ==> #[trigger] lines[jj] == chars@.subrange(
                    starts@[jj] as int,
                    ends@[jj] as int,
                ) && starts@[jj] <= ends@[jj] && ends@[jj] <= chars@.len(),
            first_assets_setting(lines) == first_assets_setting(lines.subrange(j as int, lines.len() as int)),
        decreases starts@.len() - j,
    {
        let ghost rest = lines.subrange(j as int, lines.len() as int);
        proof {
            assert(rest[0] == lines[j as int]);
            assert(rest.drop_first() =~= lines.subrange(j + 1, lines.len() as int));
        }
        match line_assets_setting(&chars, starts[j], ends[j]) {
            Some(value) => {
                return value;
            },
            None => {},
        }
        j = j + 1;
    }
    None
}

/// Why settings cannot be saved.
#[derive(Debug, Clone, Copy, PartialEq, Eq, Structural)]
pub enum SettingsError {
    /// The default pack name is empty once white space is trimmed.
    EmptyPackName,
    /// Exporting without asking needs a default export folder.
    MissingExportDirectory,
}

/// The settings to save, or why they cannot be: the default pack name, with
/// white space trimmed from both ends, must not be empty, and exporting
/// without asking needs a default export folder. Returns the trimmed name.
pub fn check_settings(default_pack_name: &str, export_without_asking: bool, has_export_directory: bool) -> (r:
    Result<String, SettingsError>)
    ensures
        ({
            let name = trim_both(default_pack_name@, |c: char| whitespace(c));
            &&& r == Err::<String, SettingsError>(SettingsError::EmptyPackName) <==> name.len() == 0
            &&& r == Err::<String, SettingsError>(SettingsError::MissingExportDirectory) <==> name.len() > 0
                && export_without_asking && !has_export_directory
            &&& r matches Ok(v) ==> v@ == name
        }),
{
    let chars = chars_of(default_pack_name);
    let (a, b) = trim_space_range(&chars, 0, chars.len());
    proof {
        assert(chars@.subrange(0, chars@.len() as int) =~= default_pack_name@);
    }
    if a == b {
        return Err(SettingsError::EmptyPackName);
    }
    if export_without_asking && !has_export_directory {
        return Err(SettingsError::MissingExportDirectory);
    }
    Ok(string_from(&chars, a, b))
}

} // verus!
