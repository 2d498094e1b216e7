//! Safe names for exported files and folders, and readable labels.

use vstd::prelude::*;
use vstd::string::*;

use crate::text::{chars_of, is_alphanumeric, is_lowercase, is_uppercase, is_whitespace, push_char, string_from, char_is_alphanumeric, char_is_lowercase, char_is_uppercase, char_is_whitespace, is_ascii_letter_or_digit};

verus! {

// ---------------------------------------------------------------------------
// Generic sequence shapes
// ---------------------------------------------------------------------------

/// The characters trimmed: `.` when `dot`, space when `space`, `_` when
/// `underscore`.
pub open spec fn strips(t: (bool, bool, bool), c: char) -> bool {
    (t.0 && c == '.') || (t.1 && c == ' ') || (t.2 && c == '_')
}

/// `s` without the characters satisfying `strip` at its start.
pub open spec fn trim_start(s: Seq<char>, strip: spec_fn(char) -> bool) -> Seq<char>
    decreases s.len(),
{
    if s.len() > 0 && strip(s[0]) {
        trim_start(s.drop_first(), strip)
    } else {
        s
    }
}

/// `s` without the characters satisfying `strip` at its end.
pub open spec fn trim_end(s: Seq<char>, strip: spec_fn(char) -> bool) -> Seq<char>
    decreases s.len(),
{
    if s.len() > 0 && strip(s.last()) {
        trim_end(s.drop_last(), strip)
    } else {
        s
    }
}

/// `s` without the characters satisfying `strip` at either end.
pub open spec fn trim_both(s: Seq<char>, strip: spec_fn(char) -> bool) -> Seq<char> {
    trim_end(trim_start(s, strip), strip)
}

/// The pieces of `s` between the characters in `seps`; there is always at
/// least one piece.
pub open spec fn split_pieces(s: Seq<char>, seps: Seq<char>) -> Seq<Seq<char>>
    decreases s.len(),
{
    if s.len() == 0 {
        seq![Seq::<char>::empty()]
    } else {
        let before = split_pieces(s.drop_last(), seps);
        if seps.contains(s.last()) {
            before.push(Seq::<char>::empty())
        } else {
            before.update(before.len() - 1, before.last().push(s.last()))
        }
    }
}

pub proof fn lemma_split_pieces_nonempty(s: Seq<char>, seps: Seq<char>)
    ensures
        split_pieces(s, seps).len() >= 1,
    decreases s.len(),
{
    if s.len() > 0 {
        lemma_split_pieces_nonempty(s.drop_last(), seps);
    }
}

pub proof fn lemma_trim_start_at(s: Seq<char>, strip: spec_fn(char) -> bool, k: int)
    requires
        0 <= k <= s.len(),
        forall|i: int| 0 <= i < k ==> strip(#[trigger] s[i]),
        k == s.len() || !strip(s[k]),
    ensures
        trim_start(s, strip) == s.subrange(k, s.len() as int),
    decreases k,
{
    if k == 0 {
        assert(s.subrange(0, s.len() as int) =~= s);
    } else {
        let t = s.drop_first();
        assert forall|i: int| 0 <= i < k - 1 implies strip(#[trigger] t[i]) by {
            assert(t[i] == s[i + 1]);
        }
        lemma_trim_start_at(t, strip, k - 1);
        assert(t.subrange(k - 1, t.len() as int) =~= s.subrange(k, s.len() as int));
    }
}

proof fn lemma_trim_end_at(s: Seq<char>, strip: spec_fn(char) -> bool, k: int)
    requires
        0 <= k <= s.len(),
        forall|i: int| k <= i < s.len() ==> strip(#[trigger] s[i]),
        k == 0 || !strip(s[k - 1]),
    ensures
        trim_end(s, strip) == s.subrange(0, k),
    decreases s.len() - k,
{
    if k == s.len() {
        assert(s.subrange(0, k) =~= s);
    } else {
        let t = s.drop_last();
        assert forall|i: int| k <= i < t.len() implies strip(#[trigger] t[i]) by {
            assert(t[i] == s[i]);
        }
        lemma_trim_end_at(t, strip, k);
        assert(t.subrange(0, k) =~= s.subrange(0, k));
    }
}

/// Trimming leaves `s[start..end]` when everything outside it is stripped
/// and its first and last characters are not.
pub proof fn lemma_trim_both_at(s: Seq<char>, strip: spec_fn(char) -> bool, start: int, end: int)
    requires
        0 <= start <= end <= s.len(),
        forall|i: int| 0 <= i < start ==> strip(#[trigger] s[i]),
        forall|i: int| end <= i < s.len() ==> strip(#[trigger] s[i]),
        start == s.len() || !strip(s[start]),
        start == end || !strip(s[end - 1]),
        start == s.len() ==> end == start,
    ensures
        trim_both(s, strip) == s.subrange(start, end),
{
    lemma_trim_start_at(s, strip, start);
    let t = s.subrange(start, s.len() as int);
    assert forall|i: int| end - start <= i < t.len() implies strip(#[trigger] t[i]) by {
        assert(t[i] == s[i + start]);
    }
    lemma_trim_end_at(t, strip, end - start);
    assert(t.subrange(0, end - start) =~= s.subrange(start, end));
}

/// Exec trimming of `chars`: the bounds of what remains.
fn trim_bounds(chars: &Vec<char>, strip_dot: bool, strip_space: bool, strip_underscore: bool) -> (r: (
    usize,
    usize,
))
    ensures
        r.0 <= r.1 <= chars@.len(),
        trim_both(chars@, |c: char| strips((strip_dot, strip_space, strip_underscore), c))
            == chars@.subrange(r.0 as int, r.1 as int),
{
    let ghost t = (strip_dot, strip_space, strip_underscore);
    let ghost strip = |c: char| strips((strip_dot, strip_space, strip_underscore), c);
    let n = chars.len();
    let mut start: usize = 0;
    while start < n && ((strip_dot && chars[start] == '.') || (strip_space && chars[start] == ' ') || (
    strip_underscore && chars[start] == '_'))
        invariant
            n == chars@.len(),
            start <= n,
            t == (strip_dot, strip_space, strip_underscore),
            forall|i: int| 0 <= i < start ==> strips(t, #[trigger] chars@[i]),
        decreases n - start,
    {
        start = start + 1;
    }
    let mut end: usize = n;
    while end > start && ((strip_dot && chars[end - 1] == '.') || (strip_space && chars[end - 1] == ' ')
        || (strip_underscore && chars[end - 1] == '_'))
        invariant
            n == chars@.len(),
            start <= end <= n,
            t == (strip_dot, strip_space, strip_underscore),
            forall|i: int| end <= i < n ==> strips(t, #[trigger] chars@[i]),
        decreases end,
    {
        end = end - 1;
    }
    proof {
        if start == n {
            assert(end == n);
        }
        assert forall|i: int| 0 <= i < start implies strip(#[trigger] chars@[i]) by {
            assert(strips(t, chars@[i]));
        }
        assert forall|i: int| end <= i < n implies strip(#[trigger] chars@[i]) by {
            assert(strips(t, chars@[i]));
        }
        lemma_trim_both_at(chars@, strip, start as int, end as int);
    }
    (start, end)
}

// ---------------------------------------------------------------------------
// Sanitising
// ---------------------------------------------------------------------------

/// Alphanumeric in the sense of `char::is_alphanumeric`.
pub open spec fn alphanumeric(c: char) -> bool {
    if (c as u32) < 128 {
        is_ascii_letter_or_digit(c)
    } else {
        char_is_alphanumeric(c)
    }
}

fn is_alnum(c: char) -> (b: bool)
    ensures
        b == alphanumeric(c),
{
    let r = is_alphanumeric(c);
    proof {
        if (c as u32) >= 128 {
            assert(r == char_is_alphanumeric(c));
        }
    }
    r
}

/// Characters a file name keeps: letters, digits, `_` and `-`.
pub open spec fn stem_char_allowed(c: char) -> bool {
    alphanumeric(c) || c == '_' || c == '-'
}

/// Characters a folder name keeps: those of a file name, and spaces.
pub open spec fn component_char_allowed(c: char) -> bool {
    stem_char_allowed(c) || c == ' '
}

/// Every character not allowed in a file name (or, with `spaces`, in a
/// folder name) becomes `_`.
pub open spec fn replace_disallowed(s: Seq<char>, spaces: bool) -> Seq<char> {
    s.map_values(|c: char| if stem_char_allowed(c) || (spaces && c == ' ') {
        c
    } else {
        '_'
    })
}


/// A file name made safe: disallowed characters become `_`, dots, spaces and
/// underscores are trimmed from both ends, and an empty result becomes
/// `sprite`.
pub open spec fn sanitized_file_stem(value: Seq<char>) -> Seq<char> {
    let t = trim_both(replace_disallowed(value, false), |c: char| strips((true, true, true), c));
    if t.len() == 0 {
        "sprite"@
    } else {
        t
    }
}

/// A folder name made safe: disallowed characters become `_`, dots and
/// spaces are trimmed from both ends, and an empty result becomes `fallback`.
pub open spec fn sanitized_component(value: Seq<char>, fallback: Seq<char>) -> Seq<char> {
    let t = trim_both(replace_disallowed(value, true), |c: char| strips((true, true, false), c));
    if t.len() == 0 {
        fallback
    } else {
        t
    }
}

fn replace_chars(value: &str, spaces_allowed: bool) -> (v: Vec<char>)
    ensures
        v@ == replace_disallowed(value@, spaces_allowed),
{
    let chars = chars_of(value);
    let mut v: Vec<char> = Vec::new();
    let mut i: usize = 0;
    while i < chars.len()
        invariant
            chars@ == value@,
            i <= chars@.len(),
            v@ == replace_disallowed(chars@.take(i as int), spaces_allowed),
        decreases chars@.len() - i,
    {
        let c = chars[i];
        if is_alnum(c) || c == '_' || c == '-' || (spaces_allowed && c == ' ') {
            v.push(c);
        } else {
            v.push('_');
        }
        i = i + 1;
        proof {
            assert(v@ =~= replace_disallowed(chars@.take(i as int), spaces_allowed));
        }
    }
    proof {
        assert(chars@.take(i as int) =~= chars@);
    }
    v
}

/// Makes `value` safe to use as a file name; see `sanitized_file_stem`.
pub fn sanitize_file_stem(value: &str) -> (s: String)
    ensures
        s@ == sanitized_file_stem(value@),
{
    let v = replace_chars(value, false);
    let (start, end) = trim_bounds(&v, true, true, true);
    if start == end {
        String::from_str("sprite")
    } else {
        string_from(&v, start, end)
    }
}

/// Makes `value` safe to use as a folder name, or gives `fallback` when
/// nothing is left; see `sanitized_component`.
pub fn sanitize_component(value: &str, fallback: &str) -> (s: String)
    ensures
        s@ == sanitized_component(value@, fallback@),
{
    let v = replace_chars(value, true);
    let (start, end) = trim_bounds(&v, true, true, false);
    if start == end {
        String::from_str(fallback)
    } else {
        string_from(&v, start, end)
    }
}

/// Makes a pack name safe to use as a folder name; an empty result becomes
/// `MyFantasyPack`.
pub fn sanitize_pack_name(value: &str) -> (s: String)
    ensures
        s@ == sanitized_component(value@, "MyFantasyPack"@),
{
    sanitize_component(value, "MyFantasyPack")
}

// ---------------------------------------------------------------------------
// Laws of sanitising
// ---------------------------------------------------------------------------

proof fn trim_start_index(s: Seq<char>, strip: spec_fn(char) -> bool) -> (k: int)
    ensures
        0 <= k <= s.len(),
        trim_start(s, strip) == s.subrange(k, s.len() as int),
        k == s.len() || !strip(s[k]),
    decreases s.len(),
{
    if s.len() > 0 && strip(s[0]) {
        let k1 = trim_start_index(s.drop_first(), strip);
        assert(s.drop_first().subrange(k1, s.len() - 1) =~= s.subrange(k1 + 1, s.len() as int));
        k1 + 1
    } else {
        assert(s.subrange(0, s.len() as int) =~= s);
        0
    }
}

proof fn trim_end_index(s: Seq<char>, strip: spec_fn(char) -> bool) -> (k: int)
    ensures
        0 <= k <= s.len(),
        trim_end(s, strip) == s.subrange(0, k),
        k == 0 || !strip(s[k - 1]),
    decreases s.len(),
{
    if s.len() > 0 && strip(s.last()) {
        let k1 = trim_end_index(s.drop_last(), strip);
        assert(s.drop_last().subrange(0, k1) =~= s.subrange(0, k1));
        k1
    } else {
        assert(s.subrange(0, s.len() as int) =~= s);
        s.len() as int
    }
}

/// What trimming leaves is a stretch of `s` whose ends are not trimmed.
pub proof fn trim_both_bounds(s: Seq<char>, strip: spec_fn(char) -> bool) -> (r: (int, int))
    ensures
        0 <= r.0 <= r.1 <= s.len(),
        trim_both(s, strip) == s.subrange(r.0, r.1),
        r.0 < r.1 ==> !strip(s[r.0]) && !strip(s[r.1 - 1]),
{
    let a = trim_start_index(s, strip);
    let t = s.subrange(a, s.len() as int);
    let b = trim_end_index(t, strip);
    assert(t.subrange(0, b) =~= s.subrange(a, a + b));
    (a, a + b)
}

/// Trimming leaves a sequence alone when neither end is trimmed.
pub proof fn lemma_trim_both_fixed(s: Seq<char>, strip: spec_fn(char) -> bool)
    requires
        s.len() > 0 ==> !strip(s[0]) && !strip(s.last()),
    ensures
        trim_both(s, strip) == s,
{
    lemma_trim_both_at(s, strip, 0, s.len() as int);
    assert(s.subrange(0, s.len() as int) =~= s);
}

/// Replacing changes nothing when every character is allowed.
proof fn lemma_replace_fixed(s: Seq<char>, spaces: bool)
    requires
        forall|i: int| 0 <= i < s.len() ==> stem_char_allowed(#[trigger] s[i]) || (spaces && s[i] == ' '),
    ensures
        replace_disallowed(s, spaces) == s,
{
    assert(replace_disallowed(s, spaces) =~= s);
}

/// A sanitised file name is never empty, holds only letters, digits, `_` and
/// `-`, and neither starts nor ends with `.`, space or `_`.
pub proof fn law_file_stem_is_safe(value: Seq<char>)
    ensures
        ({
            let s = sanitized_file_stem(value);
            &&& s.len() > 0
            &&& forall|i: int| 0 <= i < s.len() ==> stem_char_allowed(#[trigger] s[i])
            &&& !strips((true, true, true), s[0])
            &&& !strips((true, true, true), s.last())
        }),
{
    reveal_strlit("sprite");
    let strip = |c: char| strips((true, true, true), c);
    let r = replace_disallowed(value, false);
    let (a, b) = trim_both_bounds(r, strip);
    let s = sanitized_file_stem(value);
    if a < b {
        assert forall|i: int| 0 <= i < s.len() implies stem_char_allowed(#[trigger] s[i]) by {
            assert(s[i] == r[a + i]);
        }
    }
}

/// Sanitising a sanitised file name changes nothing.
pub proof fn law_file_stem_idempotent(value: Seq<char>)
    ensures
        sanitized_file_stem(sanitized_file_stem(value)) == sanitized_file_stem(value),
{
    law_file_stem_is_safe(value);
    let s = sanitized_file_stem(value);
    lemma_replace_fixed(s, false);
    lemma_trim_both_fixed(s, |c: char| strips((true, true, true), c));
}

/// A sanitised folder name holds only letters, digits, `_`, `-` and spaces,
/// and neither starts nor ends with `.` or space, unless it is the fallback.
pub proof fn law_component_is_safe(value: Seq<char>, fallback: Seq<char>)
    ensures
        ({
            let s = sanitized_component(value, fallback);
            s != fallback ==> {
                &&& s.len() > 0
                &&& forall|i: int| 0 <= i < s.len() ==> component_char_allowed(#[trigger] s[i])
                &&& !strips((true, true, false), s[0])
                &&& !strips((true, true, false), s.last())
            }
        }),
{
    let strip = |c: char| strips((true, true, false), c);
    let r = replace_disallowed(value, true);
    let (a, b) = trim_both_bounds(r, strip);
    let s = sanitized_component(value, fallback);
    if a < b {
        assert forall|i: int| 0 <= i < s.len() implies component_char_allowed(#[trigger] s[i]) by {
            assert(s[i] == r[a + i]);
        }
    }
}

/// Sanitising a sanitised pack name changes nothing.
pub proof fn law_pack_name_idempotent(value: Seq<char>)
    ensures
        sanitized_component(sanitized_component(value, "MyFantasyPack"@), "MyFantasyPack"@)
            == sanitized_component(value, "MyFantasyPack"@),
{
    reveal_strlit("MyFantasyPack");
    law_component_is_safe(value, "MyFantasyPack"@);
    let s = sanitized_component(value, "MyFantasyPack"@);
    lemma_replace_fixed(s, true);
    lemma_trim_both_fixed(s, |c: char| strips((true, true, false), c));
}

/// A file name that is already safe is kept as it is: not empty, only
/// letters, digits, `_` and `-`, and neither starting nor ending with `_`.
pub proof fn law_safe_file_stem_is_kept(value: Seq<char>)
    requires
        value.len() > 0,
        forall|i: int| 0 <= i < value.len() ==> stem_char_allowed(#[trigger] value[i]),
        value[0] != '_',
        value.last() != '_',
    ensures
        sanitized_file_stem(value) == value,
{
    lemma_replace_fixed(value, false);
    lemma_trim_both_fixed(value, |c: char| strips((true, true, true), c));
}

/// A folder name that is already safe is kept as it is: not empty, only
/// letters, digits, `_`, `-` and spaces, and neither starting nor ending
/// with a space.
pub proof fn law_safe_component_is_kept(value: Seq<char>, fallback: Seq<char>)
    requires
        value.len() > 0,
        forall|i: int| 0 <= i < value.len() ==> component_char_allowed(#[trigger] value[i]),
        value[0] != ' ',
        value.last() != ' ',
    ensures
        sanitized_component(value, fallback) == value,
{
    lemma_replace_fixed(value, true);
    lemma_trim_both_fixed(value, |c: char| strips((true, true, false), c));
}

/// `s` is the stretch of `value` starting at `a` in which each character is
/// kept, or replaced by `_` where it is not allowed in a file name (or, with
/// `spaces`, in a folder name).
pub open spec fn kept_or_replaced_at(value: Seq<char>, s: Seq<char>, a: int, spaces: bool) -> bool {
    &&& 0 <= a
    &&& a + s.len() <= value.len()
    &&& forall|i: int|
        0 <= i < s.len() ==> #[trigger] s[i] == value[a + i] || (s[i] == '_' && !(stem_char_allowed(
            value[a + i],
        ) || (spaces && value[a + i] == ' ')))
}

/// A sanitised file name other than the fallback `sprite` is a stretch of
/// the input in which each character is kept, or replaced by `_` where it is
/// not allowed in a file name.
pub proof fn law_file_stem_keeps_or_replaces_each_character(value: Seq<char>)
    ensures
        sanitized_file_stem(value) == "sprite"@ || exists|a: int|
            #[trigger] kept_or_replaced_at(value, sanitized_file_stem(value), a, false),
{
    let strip = |c: char| strips((true, true, true), c);
    let r = replace_disallowed(value, false);
    let (a, b) = trim_both_bounds(r, strip);
    let s = sanitized_file_stem(value);
    if a < b {
        assert(s == r.subrange(a, b));
        assert forall|i: int| 0 <= i < s.len() implies #[trigger] s[i] == value[a + i] || (s[i] == '_'
            && !(stem_char_allowed(value[a + i]) || (false && value[a + i] == ' '))) by {
            assert(s[i] == r[a + i]);
        }
        assert(kept_or_replaced_at(value, s, a, false));
    }
}

/// A sanitised folder name other than the fallback is a stretch of the input
/// in which each character is kept, or replaced by `_` where it is not
/// allowed in a folder name.
pub proof fn law_component_keeps_or_replaces_each_character(value: Seq<char>, fallback: Seq<char>)
    ensures
        sanitized_component(value, fallback) == fallback || exists|a: int|
            #[trigger] kept_or_replaced_at(value, sanitized_component(value, fallback), a, true),
{
    let strip = |c: char| strips((true, true, false), c);
    let r = replace_disallowed(value, true);
    let (a, b) = trim_both_bounds(r, strip);
    let s = sanitized_component(value, fallback);
    if a < b {
        assert(s == r.subrange(a, b));
        assert forall|i: int| 0 <= i < s.len() implies #[trigger] s[i] == value[a + i] || (s[i] == '_'
            && !(stem_char_allowed(value[a + i]) || (true && value[a + i] == ' '))) by {
            assert(s[i] == r[a + i]);
        }
        assert(kept_or_replaced_at(value, s, a, true));
    }
}

// ---------------------------------------------------------------------------
// Category folders
// ---------------------------------------------------------------------------

/// The separators between the folders of a category.
pub open spec fn category_separators() -> Seq<char> {
    seq!['/', '\\']
}

/// The sanitised pieces that are not empty, in order.
pub open spec fn kept_components(pieces: Seq<Seq<char>>) -> Seq<Seq<char>>
    decreases pieces.len(),
{
    if pieces.len() == 0 {
        Seq::empty()
    } else {
        let before = kept_components(pieces.drop_last());
        let c = sanitized_component(pieces.last(), Seq::empty());
        if c.len() > 0 {
            before.push(c)
        } else {
            before
        }
    }
}

/// The folders a category becomes: split at `/` and `\`, each piece
/// sanitised, empty pieces dropped, and `Uncategorized` when nothing is left.
pub open spec fn category_folders(category: Seq<char>) -> Seq<Seq<char>> {
    let kept = kept_components(split_pieces(category, category_separators()));
    if kept.len() == 0 {
        seq!["Uncategorized"@]
    } else {
        kept
    }
}

/// The folder path, as components, that a category is exported under.
pub fn safe_category_path(category: &str) -> (path: Vec<String>)
    ensures
        crate::model::components_view(path@) == category_folders(category@),
{
    let chars = chars_of(category);
    let ghost seps = category_separators();
    let mut path: Vec<String> = Vec::new();
    let mut piece = String::new();
    let mut i: usize = 0;
    while i < chars.len()
        invariant
            chars@ == category@,
            seps == category_separators(),
            i <= chars@.len(),
            split_pieces(chars@.take(i as int), seps).len() >= 1,
            piece@ == split_pieces(chars@.take(i as int), seps).last(),
            crate::model::components_view(path@) == kept_components(
                split_pieces(chars@.take(i as int), seps).drop_last(),
            ),
        decreases chars@.len() - i,
    {
        let c = chars[i];
        let ghost before = split_pieces(chars@.take(i as int), seps);
        proof {
            assert(chars@.take(i + 1).drop_last() =~= chars@.take(i as int));
            assert(seps.contains(c) == (c == '/' || c == '\\')) by {
                if c == '/' {
                    assert(seps[0] == c);
                }
                if c == '\\' {
                    assert(seps[1] == c);
                }
            }
        }
        if c == '/' || c == '\\' {
            let clean = sanitize_component(piece.as_str(), "");
            let ghost old_path = path@;
            let ghost clean_view = clean@;
            if !clean.as_str().is_empty() {
                path.push(clean);
            }
            piece = String::new();
            proof {
                reveal_strlit("");
                assert(""@ =~= Seq::<char>::empty());
                if clean_view.len() > 0 {
                    assert(crate::model::components_view(path@) =~= crate::model::components_view(
                        old_path,
                    ).push(clean_view));
                } else {
                    assert(path@ == old_path);
                }
                let after = split_pieces(chars@.take(i + 1), seps);
                assert(after == before.push(Seq::<char>::empty()));
                assert(after.drop_last() =~= before);
                assert(before.drop_last().push(before.last()) =~= before);
                assert(crate::model::components_view(path@) =~= kept_components(before));
            }
        } else {
            push_char(&mut piece, c);
            proof {
                let after = split_pieces(chars@.take(i + 1), seps);
                assert(after.drop_last() =~= before.drop_last());
            }
        }
        i = i + 1;
    }
    let clean = sanitize_component(piece.as_str(), "");
    let ghost old_path = path@;
    let ghost clean_view = clean@;
    if !clean.as_str().is_empty() {
        path.push(clean);
    }
    proof {
        reveal_strlit("");
        assert(""@ =~= Seq::<char>::empty());
        if clean_view.len() > 0 {
            assert(crate::model::components_view(path@) =~= crate::model::components_view(old_path).push(
                clean_view,
            ));
        }
        let all = split_pieces(chars@.take(i as int), seps);
        assert(chars@.take(i as int) =~= chars@);
        assert(all.drop_last().push(all.last()) =~= all);
        assert(crate::model::components_view(path@) =~= kept_components(all));
    }
    if path.len() == 0 {
        path.push(String::from_str("Uncategorized"));
        proof {
            assert(crate::model::components_view(path@) =~= seq!["Uncategorized"@]);
        }
    }
    path
}

/// A safe folder name: not empty, only letters, digits, `_`, `-` and
/// spaces, and not starting with `.` (so never `.` or `..`, and never holding
/// a path separator).
pub open spec fn is_safe_folder_name(c: Seq<char>) -> bool {
    &&& c.len() > 0
    &&& forall|i: int| 0 <= i < c.len() ==> component_char_allowed(#[trigger] c[i])
    &&& c[0] != '.'
}

proof fn lemma_kept_components_safe(pieces: Seq<Seq<char>>)
    ensures
        forall|k: int|
            0 <= k < kept_components(pieces).len() ==> is_safe_folder_name(
                #[trigger] kept_components(pieces)[k],
            ),
    decreases pieces.len(),
{
    if pieces.len() > 0 {
        lemma_kept_components_safe(pieces.drop_last());
        law_component_is_safe(pieces.last(), Seq::empty());
        let before = kept_components(pieces.drop_last());
        let c = sanitized_component(pieces.last(), Seq::empty());
        if c.len() > 0 {
            assert(c != Seq::<char>::empty());
            assert(is_safe_folder_name(c));
            let all = kept_components(pieces);
            assert forall|k: int| 0 <= k < all.len() implies is_safe_folder_name(#[trigger] all[k]) by {
                if k < before.len() {
                    assert(all[k] == before[k]);
                }
            }
        }
    }
}

/// Every folder a category becomes is a safe folder name.
pub proof fn law_category_folders_are_safe(category: Seq<char>)
    ensures
        category_folders(category).len() >= 1,
        forall|k: int|
            0 <= k < category_folders(category).len() ==> is_safe_folder_name(
                #[trigger] category_folders(category)[k],
            ),
{
    reveal_strlit("Uncategorized");
    lemma_kept_components_safe(split_pieces(category, category_separators()));
    let u = "Uncategorized"@;
    assert forall|i: int| 0 <= i < u.len() implies component_char_allowed(#[trigger] u[i]) by {}
}

// ---------------------------------------------------------------------------
// Readable labels
// ---------------------------------------------------------------------------

/// Uppercase in the sense of `char::is_uppercase`.
pub open spec fn uppercase(c: char) -> bool {
    if (c as u32) < 128 {
        'A' <= c && c <= 'Z'
    } else {
        char_is_uppercase(c)
    }
}

/// Lowercase in the sense of `char::is_lowercase`.
pub open spec fn lowercase(c: char) -> bool {
    if (c as u32) < 128 {
        'a' <= c && c <= 'z'
    } else {
        char_is_lowercase(c)
    }
}

/// White space in the sense of `char::is_whitespace`.
pub open spec fn whitespace(c: char) -> bool {
    if (c as u32) < 128 {
        c == ' ' || c == '\t' || c == '\n' || c == '\u{b}' || c == '\u{c}' || c == '\r'
    } else {
        char_is_whitespace(c)
    }
}

fn is_upper(c: char) -> (b: bool)
    ensures
        b == uppercase(c),
{
    is_uppercase(c)
}

fn is_lower(c: char) -> (b: bool)
    ensures
        b == lowercase(c),
{
    is_lowercase(c)
}

pub fn is_space(c: char) -> (b: bool)
    ensures
        b == whitespace(c),
{
    is_whitespace(c)
}

/// The label built from `s` before trimming, and whether its last letter was
/// lowercase: `_` and `-` become a single space (never two in a row), and a
/// space goes in front of an uppercase letter that follows a lowercase one.
pub open spec fn label_words(s: Seq<char>) -> (Seq<char>, bool)
    decreases s.len(),
{
    if s.len() == 0 {
        (Seq::empty(), false)
    } else {
        let (out, previous_lower) = label_words(s.drop_last());
        let ch = s.last();
        if ch == '_' || ch == '-' {
            (if out.len() > 0 && out.last() == ' ' {
                out
            } else {
                out.push(' ')
            }, false)
        } else {
            let spaced = if uppercase(ch) && previous_lower {
                out.push(' ')
            } else {
                out
            };
            (spaced.push(ch), lowercase(ch))
        }
    }
}

/// A readable label for an identifier such as a file name: see
/// `label_words`, then white space trimmed from both ends.
pub open spec fn humanized(s: Seq<char>) -> Seq<char> {
    trim_both(label_words(s).0, |c: char| whitespace(c))
}

proof fn lemma_label_words_no_separators(s: Seq<char>)
    ensures
        forall|i: int|
            0 <= i < label_words(s).0.len() ==> #[trigger] label_words(s).0[i] != '_' && label_words(s).0[i]
                != '-',
    decreases s.len(),
{
    if s.len() > 0 {
        lemma_label_words_no_separators(s.drop_last());
        let (out, previous_lower) = label_words(s.drop_last());
        let ch = s.last();
        let r = label_words(s).0;
        assert forall|i: int| 0 <= i < r.len() implies #[trigger] r[i] != '_' && r[i] != '-' by {
            if ch == '_' || ch == '-' {
                if !(out.len() > 0 && out.last() == ' ') {
                    if i < out.len() {
                        assert(r[i] == out[i]);
                    }
                }
            } else {
                let spaced = if uppercase(ch) && previous_lower {
                    out.push(' ')
                } else {
                    out
                };
                assert(r == spaced.push(ch));
                if i < out.len() {
                    assert(spaced[i] == out[i]);
                    assert(r[i] == out[i]);
                }
            }
        }
    }
}

proof fn lemma_label_words_of_lowercase(s: Seq<char>)
    requires
        forall|i: int| 0 <= i < s.len() ==> 'a' <= #[trigger] s[i] && s[i] <= 'z',
    ensures
        label_words(s).0 == s,
        label_words(s).1 == (s.len() > 0),
    decreases s.len(),
{
    if s.len() > 0 {
        let d = s.drop_last();
        assert forall|i: int| 0 <= i < d.len() implies 'a' <= #[trigger] d[i] && d[i] <= 'z' by {
            assert(d[i] == s[i]);
        }
        lemma_label_words_of_lowercase(d);
        assert(s.last() == s[s.len() - 1]);
        assert(d.push(s.last()) =~= s);
    }
}

/// A readable label never holds `_` or `-`: each run of them becomes a
/// space between words.
pub proof fn law_label_has_no_separators(s: Seq<char>)
    ensures
        forall|i: int| 0 <= i < humanized(s).len() ==> #[trigger] humanized(s)[i] != '_' && humanized(s)[i] != '-',
{
    lemma_label_words_no_separators(s);
    let w = label_words(s).0;
    let (a, b) = trim_both_bounds(w, |c: char| whitespace(c));
    assert forall|i: int| 0 <= i < humanized(s).len() implies #[trigger] humanized(s)[i] != '_' && humanized(
        s,
    )[i] != '-' by {
        assert(humanized(s)[i] == w[a + i]);
    }
}

/// A word of small ASCII letters is its own label.
pub proof fn law_lowercase_word_is_its_own_label(s: Seq<char>)
    requires
        forall|i: int| 0 <= i < s.len() ==> 'a' <= #[trigger] s[i] && s[i] <= 'z',
    ensures
        humanized(s) == s,
{
    lemma_label_words_of_lowercase(s);
    if s.len() > 0 {
        assert('a' <= s[0] && s[0] <= 'z');
        assert('a' <= s[s.len() - 1] && s[s.len() - 1] <= 'z');
    }
    lemma_trim_both_fixed(s, |c: char| whitespace(c));
}

/// Turns an identifier like `dark_forestTree` into a label like
/// `dark forest Tree`.
pub fn humanize(value: &str) -> (out: String)
    ensures
        out@ == humanized(value@),
{
    let chars = chars_of(value);
    let mut out: Vec<char> = Vec::new();
    let mut previous_lower = false;
    let mut i: usize = 0;
    while i < chars.len()
        invariant
            chars@ == value@,
            i <= chars@.len(),
            (out@, previous_lower) == label_words(chars@.take(i as int)),
        decreases chars@.len() - i,
    {
        let ch = chars[i];
        proof {
            assert(chars@.take(i + 1).drop_last() =~= chars@.take(i as int));
        }
        if ch == '_' || ch == '-' {
            let n = out.len();
            if !(n > 0 && out[n - 1] == ' ') {
                out.push(' ');
            }
            previous_lower = false;
        } else {
            if is_upper(ch) && previous_lower {
                out.push(' ');
            }
            out.push(ch);
            previous_lower = is_lower(ch);
        }
        i = i + 1;
    }
    proof {
        assert(chars@.take(i as int) =~= chars@);
    }
    let ghost strip = |c: char| whitespace(c);
    let n = out.len();
    let mut start: usize = 0;
    while start < n && is_space(out[start])
        invariant
            n == out@.len(),
            start <= n,
            forall|k: int| 0 <= k < start ==> whitespace(#[trigger] out@[k]),
        decreases n - start,
    {
        start = start + 1;
    }
    let mut end: usize = n;
    while end > start && is_space(out[end - 1])
        invariant
            n == out@.len(),
            start <= end <= n,
            forall|k: int| end <= k < n ==> whitespace(#[trigger] out@[k]),
        decreases end,
    {
        end = end - 1;
    }
    proof {
        if start == n {
            assert(end == n);
        }
        assert forall|k: int| 0 <= k < start implies strip(#[trigger] out@[k]) by {}
        assert forall|k: int| end <= k < n implies strip(#[trigger] out@[k]) by {}
        lemma_trim_both_at(out@, strip, start as int, end as int);
    }
    string_from(&out, start, end)
}

} // verus!
