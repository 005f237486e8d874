//! Which files are music, the order in which they are taken, and how a
//! folder listing presents each of them.
use vstd::prelude::*;
use crate::path::{extension_range, file_name, file_name_range, path_extension};
use crate::text::{
    ascii_lower, ascii_lower_seq, ascii_upper, ascii_upper_char, ascii_upper_seq, char_seq_lt, decimal,
    decimal_string, pad_right, push_char, push_padded_right, eq_ascii_folded, lemma_lt_asymmetric, lemma_lt_total,
    lemma_lt_transitive, str_lt,
};

verus! {

broadcast use vstd::seq_lib::group_to_multiset_ensures;

/// The recognised music extensions, in lower case.
pub open spec fn music_extensions() -> Seq<Seq<char>> {
    seq![
        seq!['m', 'p', '3'],
        seq!['f', 'l', 'a', 'c'],
        seq!['m', '4', 'a'],
        seq!['w', 'a', 'v'],
        seq!['o', 'g', 'g'],
        seq!['o', 'p', 'u', 's'],
        seq!['a', 'a', 'c'],
        seq!['w', 'm', 'a'],
    ]
}

/// An extension names music when, lower-cased, it is one of the recognised
/// extensions. (ASCII folding gives the same answer here as full Unicode
/// lower-casing: the only non-ASCII characters that lower-case to ASCII
/// letters become `k` or `i` followed by a combining dot, and neither occurs
/// in the list.)
pub open spec fn is_music_extension(e: Seq<char>) -> bool {
    music_extensions().contains(ascii_lower_seq(e))
}

/// A path names a music file when it has an extension and that extension is
/// a music extension.
pub open spec fn is_music_path(p: Seq<char>) -> bool {
    match path_extension(p) {
        Some(e) => is_music_extension(e),
        None => false,
    }
}

/// A path names music exactly when it has an extension whose lower-cased form
/// is one of the eight: mp3, flac, m4a, wav, ogg, opus, aac, wma.
pub proof fn lemma_music_path_is_one_of_eight(p: Seq<char>)
    ensures
        is_music_path(p) <==> (path_extension(p) is Some && {
            let l = ascii_lower_seq(path_extension(p)->0);
            ||| l == seq!['m', 'p', '3']
            ||| l == seq!['f', 'l', 'a', 'c']
            ||| l == seq!['m', '4', 'a']
            ||| l == seq!['w', 'a', 'v']
            ||| l == seq!['o', 'g', 'g']
            ||| l == seq!['o', 'p', 'u', 's']
            ||| l == seq!['a', 'a', 'c']
            ||| l == seq!['w', 'm', 'a']
        }),
{
    if path_extension(p) is Some {
        let l = ascii_lower_seq(path_extension(p)->0);
        let m = music_extensions();
        if m.contains(l) {
            let k = choose|k: int| 0 <= k < m.len() && m[k] == l;
            assert(0 <= k < 8);
        }
        if l == m[0] || l == m[1] || l == m[2] || l == m[3] || l == m[4] || l == m[5] || l == m[6] || l == m[7] {
            assert(m.contains(l));
        }
    }
}

/// The case of an extension's letters never changes whether it names music:
/// an extension and its upper-cased form are judged alike.
pub proof fn lemma_music_extension_ignores_case(e: Seq<char>)
    ensures
        is_music_extension(ascii_upper_seq(e)) == is_music_extension(e),
{
    assert forall|k: int| 0 <= k < e.len() implies ascii_lower(ascii_upper(#[trigger] e[k])) == ascii_lower(e[k]) by {
        let c = e[k];
        if 'a' <= c && c <= 'z' {
            assert((((c as u32) - 32) as char) as u32 == (c as u32) - 32);
            assert((((((c as u32) - 32) as char) as u32) + 32) as char == c);
        }
    }
    assert(ascii_lower_seq(ascii_upper_seq(e)) =~= ascii_lower_seq(e));
}

/// Whether `s[a..b]`, ASCII lower-cased, is `target`.
fn range_folds_to(s: &str, a: usize, b: usize, target: &str) -> (r: bool)
    requires
        a <= b <= s@.len(),
    ensures
        r == (ascii_lower_seq(s@.subrange(a as int, b as int)) == target@),
{
    let ghost f = ascii_lower_seq(s@.subrange(a as int, b as int));
    let m = target.unicode_len();
    if b - a != m {
        assert(f.len() != target@.len());
        return false;
    }
    let mut i: usize = 0;
    while i < m
        invariant
            m == target@.len(),
            b - a == m,
            a <= b <= s@.len(),
            f == ascii_lower_seq(s@.subrange(a as int, b as int)),
            i <= m,
            forall|k: int| 0 <= k < i ==> f[k] == target@[k],
        decreases m - i,
    {
        let c = s.get_char(a + i);
        assert(f[i as int] == ascii_lower(c));
        if !eq_ascii_folded(c, target.get_char(i)) {
            return false;
        }
        i = i + 1;
    }
    assert(f =~= target@);
    true
}

/// Whether the extension `p[a..b]` is a music extension.
fn range_is_music_extension(p: &str, a: usize, b: usize) -> (r: bool)
    requires
        a <= b <= p@.len(),
    ensures
        r == is_music_extension(p@.subrange(a as int, b as int)),
{
    let ghost f = ascii_lower_seq(p@.subrange(a as int, b as int));
    proof {
        reveal_strlit("mp3");
        reveal_strlit("flac");
        reveal_strlit("m4a");
        reveal_strlit("wav");
        reveal_strlit("ogg");
        reveal_strlit("opus");
        reveal_strlit("aac");
        reveal_strlit("wma");
        assert("mp3"@ =~= music_extensions()[0]);
        assert("flac"@ =~= music_extensions()[1]);
        assert("m4a"@ =~= music_extensions()[2]);
        assert("wav"@ =~= music_extensions()[3]);
        assert("ogg"@ =~= music_extensions()[4]);
        assert("opus"@ =~= music_extensions()[5]);
        assert("aac"@ =~= music_extensions()[6]);
        assert("wma"@ =~= music_extensions()[7]);
    }
    let r = range_folds_to(p, a, b, "mp3") || range_folds_to(p, a, b, "flac") || range_folds_to(
        p,
        a,
        b,
        "m4a",
    ) || range_folds_to(p, a, b, "wav") || range_folds_to(p, a, b, "ogg") || range_folds_to(
        p,
        a,
        b,
        "opus",
    ) || range_folds_to(p, a, b, "aac") || range_folds_to(p, a, b, "wma");
    proof {
        if music_extensions().contains(f) {
            let k = choose|k: int| 0 <= k < music_extensions().len() && music_extensions()[k] == f;
            assert(r);
        }
        if r {
            assert(music_extensions().contains(f));
        }
    }
    r
}

/// Whether `path` names a music file: it has an extension, and that
/// extension, lower-cased, is one of mp3, flac, m4a, wav, ogg, opus, aac, wma.
pub fn eh_arquivo_musica(path: &str) -> (r: bool)
    ensures
        r == is_music_path(path@),
        r <==> (path_extension(path@) is Some && {
            let l = ascii_lower_seq(path_extension(path@)->0);
            ||| l == seq!['m', 'p', '3']
            ||| l == seq!['f', 'l', 'a', 'c']
            ||| l == seq!['m', '4', 'a']
            ||| l == seq!['w', 'a', 'v']
            ||| l == seq!['o', 'g', 'g']
            ||| l == seq!['o', 'p', 'u', 's']
            ||| l == seq!['a', 'a', 'c']
            ||| l == seq!['w', 'm', 'a']
        }),
{
    proof {
        lemma_music_path_is_one_of_eight(path@);
    }
    match extension_range(path) {
        Some((a, b)) => range_is_music_extension(path, a, b),
        None => false,
    }
}


// ───────────────────────── ordering of files ─────────────────────────

/// Paths in ascending order of their text (the order `Vec<PathBuf>::sort`
/// gives paths that differ only in their last component).
pub open spec fn sorted_paths(s: Seq<String>) -> bool {
    forall|i: int, j: int| 0 <= i < j < s.len() ==> !char_seq_lt(#[trigger] s[j]@, #[trigger] s[i]@)
}

/// The paths of `v` in ascending order.
pub fn sort_paths(v: &Vec<String>) -> (r: Vec<String>)
    ensures
        sorted_paths(r@),
        r@.to_multiset() == v@.to_multiset(),
{
    let mut r: Vec<String> = Vec::new();
    let n = v.len();
    let mut i: usize = 0;
    while i < n
        invariant
            n == v@.len(),
            i <= n,
            sorted_paths(r@),
            r@.to_multiset() == v@.take(i as int).to_multiset(),
        decreases n - i,
    {
        let x = v[i].clone();
        let mut j: usize = 0;
        while j < r.len() && !str_lt(x.as_str(), r[j].as_str())
            invariant
                j <= r@.len(),
                forall|k: int| 0 <= k < j ==> !char_seq_lt(x@, #[trigger] r@[k]@),
            decreases r@.len() - j,
        {
            j = j + 1;
        }
        let ghost old_r = r@;
        r.insert(j, x);
        proof {
            assert(r@ == old_r.insert(j as int, x));
            assert forall|a: int, b: int| 0 <= a < b < r@.len() implies !char_seq_lt(
                #[trigger] r@[b]@,
                #[trigger] r@[a]@,
            ) by {
                if b == j {
                    assert(r@[a] == old_r[a]);
                } else if a == j {
                    let y = old_r[b - 1];
                    assert(r@[b] == y);
                    assert(char_seq_lt(x@, old_r[j as int]@));
                    if b - 1 > j {
                        assert(!char_seq_lt(y@, old_r[j as int]@));
                        lemma_lt_total(y@, old_r[j as int]@);
                        lemma_lt_transitive(x@, old_r[j as int]@, y@);
                    }
                    lemma_lt_asymmetric(x@, y@);
                } else {
                    let ia = if a < j { a } else { a - 1 };
                    let ib = if b < j { b } else { b - 1 };
                    assert(r@[a] == old_r[ia]);
                    assert(r@[b] == old_r[ib]);
                }
            }
            assert(v@.take(i + 1) =~= v@.take(i as int).push(v@[i as int]));
        }
        i = i + 1;
    }
    assert(v@.take(n as int) =~= v@);
    r
}

/// Whether `s` names a music file, by its view.
pub open spec fn music_path_pred() -> spec_fn(String) -> bool {
    |s: String| is_music_path(s@)
}

/// The music files among `paths`, in ascending order: what a folder scan
/// keeps before it lists, organizes, renames or removes anything.
pub fn collect_music_files(paths: &Vec<String>) -> (r: Vec<String>)
    ensures
        sorted_paths(r@),
        r@.to_multiset() == paths@.filter(music_path_pred()).to_multiset(),
        forall|k: int| 0 <= k < r@.len() ==> is_music_path(#[trigger] r@[k]@),
{
    let mut kept: Vec<String> = Vec::new();
    let n = paths.len();
    let mut i: usize = 0;
    while i < n
        invariant
            n == paths@.len(),
            i <= n,
            kept@ == paths@.take(i as int).filter(music_path_pred()),
        decreases n - i,
    {
        proof {
            assert(paths@.take(i + 1) =~= paths@.take(i as int).push(paths@[i as int]));
            paths@.take(i as int).lemma_filter_push(paths@[i as int], music_path_pred());
        }
        if eh_arquivo_musica(paths[i].as_str()) {
            kept.push(paths[i].clone());
        }
        i = i + 1;
    }
    assert(paths@.take(n as int) =~= paths@);
    let r = sort_paths(&kept);
    proof {
        assert forall|k: int| 0 <= k < r@.len() implies is_music_path(#[trigger] r@[k]@) by {
            assert(r@.to_multiset().count(r@[k]) > 0);
            assert(kept@.contains(r@[k]));
            let q = choose|q: int| 0 <= q < kept@.len() && kept@[q] == r@[k];
            broadcast use vstd::seq_lib::group_filter_ensures;

        }
    }
    r
}


// ───────────────────────── folder listing ─────────────────────────

/// How a size is shown: in kibibytes below one mebibyte, in mebibytes from there on.
#[derive(Clone, Copy, Debug, PartialEq, Eq, Structural)]
pub enum SizeUnit {
    Kilobytes,
    Megabytes,
}

/// The unit in which a file of `bytes` bytes is listed.
pub fn size_unit(bytes: u64) -> (r: SizeUnit)
    ensures
        r == (if bytes < 1024 * 1024 {
            SizeUnit::Kilobytes
        } else {
            SizeUnit::Megabytes
        }),
{
    if bytes < 1024 * 1024 {
        SizeUnit::Kilobytes
    } else {
        SizeUnit::Megabytes
    }
}

/// The extension of a music file as a listing shows it, in upper case.
pub open spec fn extension_label(path: Seq<char>) -> Seq<char> {
    match path_extension(path) {
        Some(e) => ascii_upper_seq(e),
        None => Seq::empty(),
    }
}

/// The listing line of the `index`-th (from 0) music file `path` whose size
/// reads `size`: `"  {n:<3}. [{EXT}] {name} ({size})"` with `n = index + 1`.
pub open spec fn listing_line_spec(index: nat, path: Seq<char>, size: Seq<char>) -> Seq<char> {
    let name = match file_name(path) {
        Some(f) => f,
        None => Seq::empty(),
    };
    seq![' ', ' '] + pad_right(decimal(index + 1), 3) + seq!['.', ' ', '['] + extension_label(path)
        + seq![']', ' '] + name + seq![' ', '('] + size + seq![')']
}

/// Appends `s[a..b]` upper-cased (ASCII) to `out`.
fn push_upper_range(out: &mut String, s: &str, a: usize, b: usize)
    requires
        a <= b <= s@.len(),
    ensures
        final(out)@ == old(out)@ + ascii_upper_seq(s@.subrange(a as int, b as int)),
{
    let mut i: usize = a;
    while i < b
        invariant
            a <= i <= b <= s@.len(),
            out@ == old(out)@ + ascii_upper_seq(s@.subrange(a as int, i as int)),
        decreases b - i,
    {
        let c = ascii_upper_char(s.get_char(i));
        push_char(out, c);
        assert(ascii_upper_seq(s@.subrange(a as int, i + 1)) =~= ascii_upper_seq(
            s@.subrange(a as int, i as int),
        ).push(c));
        i = i + 1;
    }
}

/// One line of a folder listing.
pub fn listing_line(index: usize, path: &str, size: &str) -> (r: String)
    requires
        index < usize::MAX,
        is_music_path(path@),
    ensures
        r@ == listing_line_spec(index as nat, path@, size@),
{
    let mut out = String::new();
    out.append("  ");
    let number = decimal_string(index + 1);
    push_padded_right(&mut out, number.as_str(), 3);
    out.append(". [");
    let (a, b) = match extension_range(path) {
        Some(r) => r,
        None => (0, 0),
    };
    push_upper_range(&mut out, path, a, b);
    out.append("] ");
    let (fa, fb) = match file_name_range(path) {
        Some(r) => r,
        None => (0, 0),
    };
    out.append(path.substring_char(fa, fb));
    out.append(" (");
    out.append(size);
    out.append(")");
    proof {
        reveal_strlit("  ");
        reveal_strlit(". [");
        reveal_strlit("] ");
        reveal_strlit(" (");
        reveal_strlit(")");
        assert("  "@ =~= seq![' ', ' ']);
        assert(". ["@ =~= seq!['.', ' ', '[']);
        assert("] "@ =~= seq![']', ' ']);
        assert(" ("@ =~= seq![' ', '(']);
        assert(")"@ =~= seq![')']);
        assert(out@ =~= listing_line_spec(index as nat, path@, size@));
    }
    out
}

} // verus!
