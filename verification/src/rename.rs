//! Renaming the music files of a folder to `{number} - {artist} - {title}.{ext}`,
//! keeping the track number a file name starts with.
use vstd::prelude::*;
use crate::music::is_music_path;
use crate::organize::dash_sep;
use crate::path::{extension_range, file_name, file_name_range, path_extension};
use crate::text::{
    is_white_space, is_white_space_char, lemma_strip_leading_at, owned, push_char,
    push_zero_pad2, strip_leading, trim, trim_spec, zero_pad2,
};

verus! {

// ───────────────────────── outside items ─────────────────────────

#[verifier::external_type_specification]
#[verifier::external_body]
pub struct ExRegex(regex::Regex);

/// Whether `regex::Regex::new` accepts `pattern`.
pub uninterp spec fn regex_compiles(pattern: Seq<char>) -> bool;

/// The text of capture group `group` in the first match of `pattern` in
/// `haystack`, as `Regex::captures` then `Captures::get` report it; `None`
/// when nothing matches or the group takes no part in the match.
pub uninterp spec fn regex_group(pattern: Seq<char>, haystack: Seq<char>, group: nat) -> Option<
    Seq<char>,
>;

/// Whether `char::is_numeric` holds of `c` (Unicode general categories Nd, Nl, No).
pub uninterp spec fn char_is_numeric(c: char) -> bool;

/// `regex::Regex::new(pattern)`: a compiled regex exactly when the crate
/// accepts the pattern. Nothing is stated of the regex beyond that; what it
/// matches is stated by `first_group` over the pattern it was built from.
#[verifier::external_body]
fn regex_new(pattern: &str) -> (r: Option<regex::Regex>)
    ensures
        r is Some <==> regex_compiles(pattern@),
{
    regex::Regex::new(pattern).ok()
}

/// `char::is_numeric`.
#[verifier::external_body]
fn is_numeric_char(c: char) -> (r: bool)
    ensures
        r == char_is_numeric(c),
{
    c.is_numeric()
}

/// A regex together with the pattern it was compiled from. Only `compile`
/// builds one, so `re` always is `Regex::new(source)`.
pub struct CompiledRegex {
    re: regex::Regex,
    source: String,
}

impl CompiledRegex {
    /// The pattern this regex was compiled from.
    pub closed spec fn pattern(&self) -> Seq<char> {
        self.source@
    }

    /// Compiles `pattern`; `None` when the regex crate refuses it.
    pub fn compile(pattern: &str) -> (r: Option<CompiledRegex>)
        ensures
            r is Some <==> regex_compiles(pattern@),
            r matches Some(c) ==> c.pattern() == pattern@,
    {
        match regex_new(pattern) {
            Some(re) => Some(CompiledRegex { re, source: owned(pattern) }),
            None => None,
        }
    }

    /// `Regex::captures(haystack)`, then the text of group `group`
    /// (`Captures::get`, `Match::as_str`): the named result for this regex's
    /// pattern. For `^(\d+)` (anchored at the start; `\d` is Unicode `Nd`,
    /// which holds of `0`-`9` and of no other ASCII character; `+` is greedy)
    /// it also states the two facts that follow for text made of ASCII
    /// characters at its start: no match when the haystack is empty or starts
    /// with an ASCII non-digit, and group 1 is exactly a leading run of ASCII
    /// digits that is followed by an ASCII non-digit or by the end. What the
    /// pattern captures when a non-ASCII character is involved is left to
    /// the name.
    #[verifier::external_body]
    fn first_group(&self, haystack: &str, group: usize) -> (r: Option<String>)
        ensures
            match r {
                Some(m) => regex_group(self.pattern(), haystack@, group as nat) == Some(m@),
                None => regex_group(self.pattern(), haystack@, group as nat) is None,
            },
            (self.pattern() == seq!['^', '\u{28}', '\u{5c}', 'd', '+', '\u{29}'] && group == 1
                && starts_without_digit(haystack@)) ==> r is None,
            forall|d: int|
                (self.pattern() == seq!['^', '\u{28}', '\u{5c}', 'd', '+', '\u{29}'] && group == 1
                    && ascii_digit_prefix(haystack@, d)) ==> match r {
                    Some(m) => m@ == haystack@.take(d),
                    None => false,
                },
    {
        match self.re.captures(haystack) {
            Some(caps) => match caps.get(group) {
                Some(m) => Some(m.as_str().to_string()),
                None => None,
            },
            None => None,
        }
    }
}

// ───────────────────────── the new name ─────────────────────────

pub open spec fn is_ascii_digit(c: char) -> bool {
    '0' <= c && c <= '9'
}

/// An ASCII character other than a digit.
pub open spec fn is_ascii_non_digit(c: char) -> bool {
    (c as u32) < 128 && !is_ascii_digit(c)
}

/// `s` is empty or starts with an ASCII character that is not a digit.
pub open spec fn starts_without_digit(s: Seq<char>) -> bool {
    s.len() == 0 || is_ascii_non_digit(s[0])
}

/// The first `d` characters of `s` are ASCII digits, and the one after them
/// (if any) is an ASCII character that is not a digit.
pub open spec fn ascii_digit_prefix(s: Seq<char>, d: int) -> bool {
    &&& 0 < d <= s.len()
    &&& forall|i: int| 0 <= i < d ==> is_ascii_digit(#[trigger] s[i])
    &&& d == s.len() || is_ascii_non_digit(s[d])
}

/// How the number of a renamed file is chosen, seen from the new name
/// `new_name` of the `index`-th file named `name`: when the name starts
/// without a digit, the new name starts with the position `index + 1` on two
/// digits; when it starts with a run of ASCII digits, the new name starts with
/// exactly that run. Either way `" - {artist} - "` follows.
pub open spec fn number_rule(new_name: Seq<char>, name: Seq<char>, index: nat, artist: Seq<char>) -> bool {
    let dash = seq![' ', '-', ' '];
    &&& starts_without_digit(name) ==> (zero_pad2(index + 1) + dash + artist + dash).is_prefix_of(
        new_name,
    )
    &&& forall|d: int|
        ascii_digit_prefix(name, d) ==> (name.take(d) + dash + artist + dash).is_prefix_of(new_name)
}

/// `^(\d+)`: the digits a file name starts with.
pub open spec fn leading_number_pattern() -> Seq<char> {
    seq!['^', '\u{28}', '\u{5c}', 'd', '+', '\u{29}']
}

/// The characters dropped from the front of a file name to find its title:
/// numbers, `-`, `.` and white space.
pub open spec fn is_leading_junk(c: char) -> bool {
    char_is_numeric(c) || c == '-' || c == '.' || is_white_space(c)
}

pub open spec fn leading_junk() -> spec_fn(char) -> bool {
    |c: char| is_leading_junk(c)
}

/// `str::trim_end_matches(suffix)`: `suffix` removed from the end of `s` as
/// many times as it occurs there.
pub open spec fn strip_suffix_repeated(s: Seq<char>, suffix: Seq<char>) -> Seq<char>
    decreases s.len(),
{
    if suffix.len() > 0 && s.len() >= suffix.len() && s.skip(s.len() - suffix.len()) == suffix {
        strip_suffix_repeated(s.take(s.len() - suffix.len()), suffix)
    } else {
        s
    }
}

/// The title kept from a file name: leading numbers, dashes, dots and white
/// space removed, then every trailing `.{ext}`, then surrounding white space.
pub open spec fn clean_title(name: Seq<char>, ext: Seq<char>) -> Seq<char> {
    trim_spec(strip_suffix_repeated(strip_leading(name, leading_junk()), seq!['.'] + ext))
}

/// The new name of the `index`-th (from 0) file named `name` with extension
/// `ext`: `{number} - {artist} - {title}.{ext}`, where the number is the one
/// the name starts with (`found`) or else `index + 1` on two digits.
pub open spec fn renamed_spec(
    index: nat,
    name: Seq<char>,
    ext: Seq<char>,
    artist: Seq<char>,
    found: Option<Seq<char>>,
) -> Seq<char> {
    let number = match found {
        Some(n) => n,
        None => zero_pad2(index + 1),
    };
    number + dash_sep() + artist + dash_sep() + clean_title(name, ext) + seq!['.'] + ext
}

/// Where the number of a new name comes from: whenever the number found is
/// the one `^(\d+)` gives on the ASCII cases (none when the name starts
/// without a digit, the whole leading run of ASCII digits otherwise), the new
/// name starts with the position number in the first case and with that run
/// of digits in the second, followed by `" - {artist} - "`.
pub proof fn lemma_number_rule(
    index: nat,
    name: Seq<char>,
    ext: Seq<char>,
    artist: Seq<char>,
    found: Option<Seq<char>>,
)
    requires
        starts_without_digit(name) ==> found is None,
        forall|d: int| ascii_digit_prefix(name, d) ==> found == Some(name.take(d)),
    ensures
        number_rule(renamed_spec(index, name, ext, artist, found), name, index, artist),
{
    let dash = seq![' ', '-', ' '];
    let whole = renamed_spec(index, name, ext, artist, found);
    let rest = clean_title(name, ext) + seq!['.'] + ext;
    if starts_without_digit(name) {
        let pre = zero_pad2(index + 1) + dash + artist + dash;
        assert(whole =~= pre + rest);
        assert(whole.take(pre.len() as int) =~= pre);
    }
    assert forall|d: int| ascii_digit_prefix(name, d) implies (name.take(d) + dash + artist
        + dash).is_prefix_of(whole) by {
        let pre = name.take(d) + dash + artist + dash;
        assert(whole =~= pre + rest);
        assert(whole.take(pre.len() as int) =~= pre);
    }
}

fn is_leading_junk_char(c: char) -> (r: bool)
    ensures
        r == is_leading_junk(c),
{
    is_numeric_char(c) || c == '-' || c == '.' || is_white_space_char(c)
}

/// Whether `s[a..b]` equals `t`.
fn range_eq(s: &str, a: usize, b: usize, t: &str) -> (r: bool)
    requires
        a <= b <= s@.len(),
    ensures
        r == (s@.subrange(a as int, b as int) == t@),
{
    let m = t.unicode_len();
    if b - a != m {
        return false;
    }
    let mut i: usize = 0;
    while i < m
        invariant
            m == t@.len(),
            b - a == m,
            a <= b <= s@.len(),
            i <= m,
            forall|k: int| 0 <= k < i ==> s@[a + k] == t@[k],
        decreases m - i,
    {
        if s.get_char(a + i) != t.get_char(i) {
            return false;
        }
        i = i + 1;
    }
    assert(s@.subrange(a as int, b as int) =~= t@);
    true
}

/// The title kept from the file name `name` with extension `ext`.
pub fn title_from_name<'a>(name: &'a str, ext: &str) -> (r: &'a str)
    ensures
        r@ == clean_title(name@, ext@),
{
    let n = name.unicode_len();
    let mut a: usize = 0;
    while a < n && is_leading_junk_char(name.get_char(a))
        invariant
            n == name@.len(),
            a <= n,
            forall|k: int| 0 <= k < a ==> is_leading_junk(#[trigger] name@[k]),
        decreases n - a,
    {
        a = a + 1;
    }
    proof {
        lemma_strip_leading_at(name@, leading_junk(), a as int);
        assert(name@.skip(a as int) =~= name@.subrange(a as int, n as int));
    }
    let mut suffix = String::new();
    push_char(&mut suffix, '.');
    suffix.append(ext);
    let m = suffix.unicode_len();
    let ghost suf = seq!['.'] + ext@;
    assert(suffix@ =~= suf);
    let mut e: usize = n;
    while e - a >= m && m > 0 && range_eq(name, e - m, e, suffix.as_str())
        invariant
            n == name@.len(),
            a <= e <= n,
            m == suf.len(),
            suffix@ == suf,
            strip_suffix_repeated(name@.subrange(a as int, n as int), suf)
                == strip_suffix_repeated(name@.subrange(a as int, e as int), suf),
        decreases e,
    {
        let ghost t = name@.subrange(a as int, e as int);
        assert(t.skip(t.len() - m) =~= name@.subrange(e - m, e as int));
        assert(t.take(t.len() - m) =~= name@.subrange(a as int, e - m));
        e = e - m;
    }
    proof {
        let t = name@.subrange(a as int, e as int);
        if m > 0 && e - a >= m {
            assert(t.skip(t.len() - m) =~= name@.subrange(e - m, e as int));
        }
    }
    let core = name.substring_char(a, e);
    trim(core)
}

/// The new name of the `index`-th file, named `name` with extension `ext`,
/// given the number found at the start of its name (if any).
pub fn renamed(index: usize, name: &str, ext: &str, artist: &str, found: Option<String>) -> (r:
    String)
    requires
        index < usize::MAX,
    ensures
        r@ == renamed_spec(
            index as nat,
            name@,
            ext@,
            artist@,
            match found {
                Some(f) => Some(f@),
                None => None,
            },
        ),
{
    let mut r = String::new();
    match &found {
        Some(f) => r.append(f.as_str()),
        None => push_zero_pad2(&mut r, index + 1),
    }
    r.append(" - ");
    r.append(artist);
    r.append(" - ");
    r.append(title_from_name(name, ext));
    r.append(".");
    r.append(ext);
    proof {
        reveal_strlit(" - ");
        reveal_strlit(".");
        assert(" - "@ =~= dash_sep());
        assert("."@ =~= seq!['.']);
        assert(r@ =~= renamed_spec(
            index as nat,
            name@,
            ext@,
            artist@,
            match found {
                Some(f) => Some(f@),
                None => None,
            },
        ));
    }
    r
}

// ───────────────────────── the folder plan ─────────────────────────

/// One file to rename in place: the file, and its new name.
pub struct PlannedRename {
    pub from: String,
    pub new_name: String,
}

pub open spec fn name_or_empty(p: Seq<char>) -> Seq<char> {
    match file_name(p) {
        Some(f) => f,
        None => Seq::empty(),
    }
}

pub open spec fn ext_or_empty(p: Seq<char>) -> Seq<char> {
    match path_extension(p) {
        Some(e) => e,
        None => Seq::empty(),
    }
}

/// The new name of the `index`-th music file `path` when the leading number
/// is read with the regex `pattern`.
pub open spec fn planned_name(pattern: Seq<char>, index: nat, path: Seq<char>, artist: Seq<char>) -> Seq<
    char,
> {
    renamed_spec(
        index,
        name_or_empty(path),
        ext_or_empty(path),
        artist,
        regex_group(pattern, name_or_empty(path), 1),
    )
}

/// The renames of `paths` (music files, in the order they are numbered)
/// once `pattern` is compiled from `^(\d+)`.
pub fn plan_rename_with(pattern: &CompiledRegex, paths: &Vec<String>, artist: &str) -> (r: Vec<
    PlannedRename,
>)
    requires
        paths@.len() < usize::MAX,
    ensures
        r@.len() == paths@.len(),
        forall|k: int|
            0 <= k < paths@.len() ==> (#[trigger] r@[k]).from == paths@[k] && r@[k].new_name@
                == planned_name(pattern.pattern(), k as nat, paths@[k]@, artist@),
        pattern.pattern() == seq!['^', '\u{28}', '\u{5c}', 'd', '+', '\u{29}'] ==> forall|k: int|
            0 <= k < paths@.len() ==> number_rule(
                (#[trigger] r@[k]).new_name@,
                name_or_empty(paths@[k]@),
                k as nat,
                artist@,
            ),
{
    let mut r: Vec<PlannedRename> = Vec::new();
    let n = paths.len();
    let mut i: usize = 0;
    while i < n
        invariant
            n == paths@.len(),
            n < usize::MAX,
            i <= n,
            r@.len() == i,
            forall|k: int|
                0 <= k < i ==> (#[trigger] r@[k]).from == paths@[k] && r@[k].new_name@
                    == planned_name(pattern.pattern(), k as nat, paths@[k]@, artist@),
            pattern.pattern() == seq!['^', '\u{28}', '\u{5c}', 'd', '+', '\u{29}'] ==> forall|k: int|
                0 <= k < i ==> number_rule(
                    (#[trigger] r@[k]).new_name@,
                    name_or_empty(paths@[k]@),
                    k as nat,
                    artist@,
                ),
        decreases n - i,
    {
        let p = paths[i].as_str();
        proof {
            reveal_strlit("");
            assert(""@ =~= Seq::<char>::empty());
        }
        let name: &str = match file_name_range(p) {
            Some((a, b)) => p.substring_char(a, b),
            None => "",
        };
        let ext: &str = match extension_range(p) {
            Some((a, b)) => p.substring_char(a, b),
            None => "",
        };
        let found = pattern.first_group(name, 1);
        let ghost fv = match &found {
            Some(f) => Some(f@),
            None => None,
        };
        let new_name = renamed(i, name, ext, artist, found);
        proof {
            assert(name@ == name_or_empty(p@));
            if pattern.pattern() == seq!['^', '\u{28}', '\u{5c}', 'd', '+', '\u{29}'] {
                lemma_number_rule(i as nat, name@, ext@, artist@, fv);
            }
        }
        r.push(PlannedRename { from: paths[i].clone(), new_name });
        i = i + 1;
    }
    r
}

/// The renames of `paths`, reading each leading number with `^(\d+)`;
/// `None` only when the regex crate refuses that pattern.
pub fn plan_rename(paths: &Vec<String>, artist: &str) -> (r: Option<Vec<PlannedRename>>)
    requires
        paths@.len() < usize::MAX,
    ensures
        r is Some <==> regex_compiles(leading_number_pattern()),
        r matches Some(v) ==> v@.len() == paths@.len() && forall|k: int|
            0 <= k < paths@.len() ==> (#[trigger] v@[k]).from == paths@[k] && v@[k].new_name@
                == planned_name(leading_number_pattern(), k as nat, paths@[k]@, artist@),
        r matches Some(v) ==> forall|k: int|
            0 <= k < paths@.len() ==> number_rule(
                (#[trigger] v@[k]).new_name@,
                name_or_empty(paths@[k]@),
                k as nat,
                artist@,
            ),
{
    let source = "^(\\d+)";
    proof {
        reveal_strlit("^(\\d+)");
        assert(source@ =~= leading_number_pattern());
        assert(source@ =~= seq!['^', '\u{28}', '\u{5c}', 'd', '+', '\u{29}']);
    }
    match CompiledRegex::compile(source) {
        Some(pattern) => Some(plan_rename_with(&pattern, paths, artist)),
        None => None,
    }
}

} // verus!
