//! Organizing an album: the folders involved, the tracks taken from the
//! unsorted folder, and the name each track is given in the album folder.
use vstd::prelude::*;
use crate::path::{extension_range, path_extension, path_stem, stem_range};
use crate::text::{decimal, digit_char, push_zero_pad2, zero_pad2};

verus! {

/// A music file and the title it will carry.
pub struct MusicaInfo {
    pub arquivo_original: String,
    pub nome_editado: String,
}

/// One file to copy or move: from where, and to which path.
pub struct PlannedTransfer {
    pub from: String,
    pub to: String,
}

/// Everything an album organization does, before it touches the disk.
pub struct OrganizePlan {
    pub source_dir: String,
    pub dest_dir: String,
    pub transfers: Vec<PlannedTransfer>,
}

pub open spec fn unknown_folder_suffix() -> Seq<char> {
    seq!['/', 'D', 'e', 's', 'c', 'o', 'n', 'h', 'e', 'c', 'i', 'd', 'o']
}

pub open spec fn dash_sep() -> Seq<char> {
    seq![' ', '-', ' ']
}

/// The folder where unsorted downloads land: `{base}/Desconhecido`.
pub open spec fn unknown_folder_spec(base: Seq<char>) -> Seq<char> {
    base + unknown_folder_suffix()
}

/// The album folder: `{base}/{artist} - {album}`.
pub open spec fn album_folder_spec(base: Seq<char>, artist: Seq<char>, album: Seq<char>) -> Seq<
    char,
> {
    base + seq!['/'] + artist + dash_sep() + album
}

/// The name of the track at position `index` (from 0):
/// `{index + 1:02} - {artist} - {title}.{ext}`.
pub open spec fn track_file_name_spec(
    index: nat,
    artist: Seq<char>,
    title: Seq<char>,
    ext: Seq<char>,
) -> Seq<char> {
    zero_pad2(index + 1) + dash_sep() + artist + dash_sep() + title + seq!['.'] + ext
}

/// `PathBuf::join` of a relative name: a `/` goes between them unless `dir`
/// is empty or already ends in one.
pub open spec fn join_spec(dir: Seq<char>, name: Seq<char>) -> Seq<char> {
    if dir.len() == 0 {
        name
    } else if dir.last() == '/' {
        dir + name
    } else {
        dir + seq!['/'] + name
    }
}

/// The extension of a path, or nothing when it has none.
pub open spec fn extension_or_empty(p: Seq<char>) -> Seq<char> {
    match path_extension(p) {
        Some(e) => e,
        None => Seq::empty(),
    }
}

/// The stem of a path, or nothing when it has none.
pub open spec fn stem_or_empty(p: Seq<char>) -> Seq<char> {
    match path_stem(p) {
        Some(s) => s,
        None => Seq::empty(),
    }
}

/// `{base}/Desconhecido`.
pub fn unknown_folder(base: &str) -> (r: String)
    ensures
        r@ == unknown_folder_spec(base@),
{
    let mut r = String::new();
    r.append(base);
    r.append("/Desconhecido");
    proof {
        reveal_strlit("/Desconhecido");
        assert("/Desconhecido"@ =~= unknown_folder_suffix());
        assert(r@ =~= unknown_folder_spec(base@));
    }
    r
}

/// `{base}/{artist} - {album}`.
pub fn album_folder(base: &str, artist: &str, album: &str) -> (r: String)
    ensures
        r@ == album_folder_spec(base@, artist@, album@),
{
    let mut r = String::new();
    r.append(base);
    r.append("/");
    r.append(artist);
    r.append(" - ");
    r.append(album);
    proof {
        reveal_strlit("/");
        reveal_strlit(" - ");
        assert("/"@ =~= seq!['/']);
        assert(" - "@ =~= dash_sep());
        assert(r@ =~= album_folder_spec(base@, artist@, album@));
    }
    r
}

/// `{index + 1:02} - {artist} - {title}.{ext}`.
pub fn track_file_name(index: usize, artist: &str, title: &str, ext: &str) -> (r: String)
    requires
        index < usize::MAX,
    ensures
        r@ == track_file_name_spec(index as nat, artist@, title@, ext@),
{
    let mut r = String::new();
    push_zero_pad2(&mut r, index + 1);
    r.append(" - ");
    r.append(artist);
    r.append(" - ");
    r.append(title);
    r.append(".");
    r.append(ext);
    proof {
        reveal_strlit(" - ");
        reveal_strlit(".");
        assert(" - "@ =~= dash_sep());
        assert("."@ =~= seq!['.']);
        assert(r@ =~= track_file_name_spec(index as nat, artist@, title@, ext@));
    }
    r
}

/// `Path::new(dir).join(name)` for a relative `name`.
pub fn join_path(dir: &str, name: &str) -> (r: String)
    ensures
        r@ == join_spec(dir@, name@),
{
    let n = dir.unicode_len();
    let mut r = String::new();
    r.append(dir);
    if n > 0 && dir.get_char(n - 1) != '/' {
        r.append("/");
        proof {
            reveal_strlit("/");
            assert("/"@ =~= seq!['/']);
        }
    }
    r.append(name);
    assert(r@ =~= join_spec(dir@, name@));
    r
}

/// A track for `path` titled by the file's stem (its name without extension).
pub fn track_from_path(path: String) -> (r: MusicaInfo)
    ensures
        r.arquivo_original == path,
        r.nome_editado@ == stem_or_empty(path@),
{
    let title = match stem_range(path.as_str()) {
        Some((a, b)) => path.as_str().substring_char(a, b).to_owned(),
        None => String::new(),
    };
    MusicaInfo { arquivo_original: path, nome_editado: title }
}

/// The tracks for `paths`, in the same order, each titled by its stem: the
/// order used when the album is organized without asking.
pub fn tracks_in_order(paths: Vec<String>) -> (r: Vec<MusicaInfo>)
    ensures
        r@.len() == paths@.len(),
        forall|k: int|
            0 <= k < r@.len() ==> (#[trigger] r@[k]).arquivo_original == paths@[k]
                && r@[k].nome_editado@ == stem_or_empty(paths@[k]@),
{
    let mut r: Vec<MusicaInfo> = Vec::new();
    let n = paths.len();
    let mut i: usize = 0;
    while i < n
        invariant
            n == paths@.len(),
            i <= n,
            r@.len() == i,
            forall|k: int|
                0 <= k < i ==> (#[trigger] r@[k]).arquivo_original == paths@[k]
                    && r@[k].nome_editado@ == stem_or_empty(paths@[k]@),
        decreases n - i,
    {
        r.push(track_from_path(paths[i].clone()));
        i = i + 1;
    }
    r
}

/// The destination of the track at `index` in `tracks` when the album is
/// organized into `dest`.
pub open spec fn planned_destination(
    dest: Seq<char>,
    artist: Seq<char>,
    index: nat,
    track: MusicaInfo,
) -> Seq<char> {
    join_spec(
        dest,
        track_file_name_spec(
            index,
            artist,
            track.nome_editado@,
            extension_or_empty(track.arquivo_original@),
        ),
    )
}

/// What organizing `tracks` (already in their final order) from
/// `{base}/Desconhecido` into `{base}/{artist} - {album}` does: track `k`
/// goes to `{dest}/{k + 1:02} - {artist} - {title}.{ext}`.
pub fn plan_organize(base: &str, artist: &str, album: &str, tracks: &Vec<MusicaInfo>) -> (r:
    OrganizePlan)
    requires
        tracks@.len() < usize::MAX,
    ensures
        r.source_dir@ == unknown_folder_spec(base@),
        r.dest_dir@ == album_folder_spec(base@, artist@, album@),
        r.transfers@.len() == tracks@.len(),
        forall|k: int|
            0 <= k < tracks@.len() ==> (#[trigger] r.transfers@[k]).from
                == tracks@[k].arquivo_original && r.transfers@[k].to@ == planned_destination(
                r.dest_dir@,
                artist@,
                k as nat,
                tracks@[k],
            ),
        forall|k: int|
            0 <= k < tracks@.len() ==> (#[trigger] r.transfers@[k]).to@ == r.dest_dir@ + (if r.dest_dir@.last()
                == '/' {
                Seq::empty()
            } else {
                seq!['/']
            }) + zero_pad2((k + 1) as nat) + seq![' ', '-', ' '] + artist@ + seq![' ', '-', ' ']
                + tracks@[k].nome_editado@ + seq!['.'] + match path_extension(
                tracks@[k].arquivo_original@,
            ) {
                Some(e) => e,
                None => Seq::empty(),
            },
{
    let source_dir = unknown_folder(base);
    let dest_dir = album_folder(base, artist, album);
    let mut transfers: Vec<PlannedTransfer> = Vec::new();
    let n = tracks.len();
    let mut i: usize = 0;
    while i < n
        invariant
            n == tracks@.len(),
            n < usize::MAX,
            i <= n,
            transfers@.len() == i,
            forall|k: int|
                0 <= k < i ==> (#[trigger] transfers@[k]).from == tracks@[k].arquivo_original
                    && transfers@[k].to@ == planned_destination(
                    dest_dir@,
                    artist@,
                    k as nat,
                    tracks@[k],
                ),
        decreases n - i,
    {
        let t = &tracks[i];
        let ext: &str = match extension_range(t.arquivo_original.as_str()) {
            Some((a, b)) => t.arquivo_original.as_str().substring_char(a, b),
            None => "",
        };
        proof {
            reveal_strlit("");
            assert(""@ =~= Seq::<char>::empty());
        }
        let name = track_file_name(i, artist, t.nome_editado.as_str(), ext);
        let to = join_path(dest_dir.as_str(), name.as_str());
        transfers.push(PlannedTransfer { from: t.arquivo_original.clone(), to });
        i = i + 1;
    }
    proof {
        assert(dest_dir@.len() > 0);
        assert forall|k: int| 0 <= k < tracks@.len() implies (#[trigger] transfers@[k]).to@
            == dest_dir@ + (if dest_dir@.last() == '/' {
            Seq::empty()
        } else {
            seq!['/']
        }) + zero_pad2((k + 1) as nat) + seq![' ', '-', ' '] + artist@ + seq![' ', '-', ' ']
            + tracks@[k].nome_editado@ + seq!['.'] + match path_extension(
            tracks@[k].arquivo_original@,
        ) {
            Some(e) => e,
            None => Seq::empty(),
        } by {
            lemma_destination_written_out(dest_dir@, artist@, k as nat, tracks@[k]);
        }
    }
    OrganizePlan { source_dir, dest_dir, transfers }
}


/// The destination of the track at `index` in a (non-empty) album folder
/// `dest`: the folder, a `/` unless it already ends in one, the position
/// `index + 1` on two digits, `" - "`, the artist, `" - "`, the track's own
/// title, `.` and the extension of its file.
pub proof fn lemma_destination_written_out(dest: Seq<char>, artist: Seq<char>, index: nat, track: MusicaInfo)
    requires
        dest.len() > 0,
    ensures
        planned_destination(dest, artist, index, track) == dest + (if dest.last() == '/' {
            Seq::empty()
        } else {
            seq!['/']
        }) + zero_pad2(index + 1) + seq![' ', '-', ' '] + artist + seq![' ', '-', ' ']
            + track.nome_editado@ + seq!['.'] + match path_extension(track.arquivo_original@) {
            Some(e) => e,
            None => Seq::empty(),
        },
{
    let ext = match path_extension(track.arquivo_original@) {
        Some(e) => e,
        None => Seq::<char>::empty(),
    };
    let name = zero_pad2(index + 1) + seq![' ', '-', ' '] + artist + seq![' ', '-', ' ']
        + track.nome_editado@ + seq!['.'] + ext;
    assert(track_file_name_spec(index, artist, track.nome_editado@, extension_or_empty(track.arquivo_original@)) =~= name);
    if dest.last() == '/' {
        assert(dest + name =~= dest + Seq::<char>::empty() + name);
    } else {
        assert(dest + seq!['/'] + name =~= dest + seq!['/'] + zero_pad2(index + 1) + seq![' ', '-', ' '] + artist + seq![' ', '-', ' ']
            + track.nome_editado@ + seq!['.'] + ext);
    }
    assert(dest + (if dest.last() == '/' {
            Seq::empty()
        } else {
            seq!['/']
        }) + zero_pad2(index + 1) + seq![' ', '-', ' '] + artist + seq![' ', '-', ' ']
            + track.nome_editado@ + seq!['.'] + ext =~= planned_destination(dest, artist, index, track));
}

// ───────────────────────── no two tracks share a name ─────────────────────────

pub open spec fn is_digit(c: char) -> bool {
    '0' <= c && c <= '9'
}

/// The number that a string of decimal digits spells.
pub open spec fn digits_value(s: Seq<char>) -> int
    decreases s.len(),
{
    if s.len() == 0 {
        0
    } else {
        digits_value(s.drop_last()) * 10 + (s.last() as int - 48)
    }
}

proof fn lemma_decimal_digits(n: nat)
    ensures
        decimal(n).len() >= 1,
        digits_value(decimal(n)) == n,
        forall|k: int| 0 <= k < decimal(n).len() ==> is_digit(#[trigger] decimal(n)[k]),
    decreases n,
{
    assert(digit_char((n % 10) as nat) as int == 48 + n % 10);
    if n < 10 {
        let d = decimal(n);
        assert(d.drop_last() =~= Seq::<char>::empty());
        assert(digits_value(Seq::<char>::empty()) == 0);
        assert(digits_value(d) == digits_value(d.drop_last()) * 10 + (d.last() as int - 48));
    } else {
        lemma_decimal_digits(n / 10);
        let d = decimal(n);
        assert(d.drop_last() =~= decimal(n / 10));
        assert(d.last() == digit_char((n % 10) as nat));
        assert(digits_value(d) == digits_value(d.drop_last()) * 10 + (d.last() as int - 48));
        assert forall|k: int| 0 <= k < d.len() implies is_digit(#[trigger] d[k]) by {
            if k < d.len() - 1 {
                assert(d[k] == decimal(n / 10)[k]);
            }
        }
    }
}

/// `zero_pad2(n)` is made of decimal digits and spells `n`.
pub proof fn lemma_zero_pad2_digits(n: nat)
    ensures
        zero_pad2(n).len() >= 1,
        digits_value(zero_pad2(n)) == n,
        forall|k: int| 0 <= k < zero_pad2(n).len() ==> is_digit(#[trigger] zero_pad2(n)[k]),
{
    if n < 10 {
        let z = zero_pad2(n);
        assert(z.drop_last() =~= seq!['0']);
        assert(seq!['0'].drop_last() =~= Seq::<char>::empty());
        assert('0' as int == 48);
        assert(digits_value(Seq::<char>::empty()) == 0);
        assert(digits_value(seq!['0']) == digits_value(seq!['0'].drop_last()) * 10 + ('0' as int - 48));
        assert(digits_value(seq!['0']) == 0);
        assert(digit_char(n) as int == 48 + n);
    } else {
        lemma_decimal_digits(n);
    }
}

/// Tracks at different positions never get the same file name, whatever
/// their artists, titles and extensions: the name starts with the position
/// number, followed by a space.
pub proof fn lemma_track_names_distinct(
    i: nat,
    j: nat,
    artist1: Seq<char>,
    title1: Seq<char>,
    ext1: Seq<char>,
    artist2: Seq<char>,
    title2: Seq<char>,
    ext2: Seq<char>,
)
    requires
        i != j,
    ensures
        track_file_name_spec(i, artist1, title1, ext1) != track_file_name_spec(
            j,
            artist2,
            title2,
            ext2,
        ),
{
    let z1 = zero_pad2(i + 1);
    let z2 = zero_pad2(j + 1);
    let n1 = track_file_name_spec(i, artist1, title1, ext1);
    let n2 = track_file_name_spec(j, artist2, title2, ext2);
    lemma_zero_pad2_digits(i + 1);
    lemma_zero_pad2_digits(j + 1);
    assert(n1 =~= z1 + (dash_sep() + artist1 + dash_sep() + title1 + seq!['.'] + ext1));
    assert(n2 =~= z2 + (dash_sep() + artist2 + dash_sep() + title2 + seq!['.'] + ext2));
    if n1 == n2 {
        if z1.len() == z2.len() {
            assert(n1.take(z1.len() as int) =~= z1);
            assert(n2.take(z2.len() as int) =~= z2);
            assert(z1 == z2);
        } else if z1.len() < z2.len() {
            assert(n1[z1.len() as int] == ' ');
            assert(n2[z1.len() as int] == z2[z1.len() as int]);
            assert(is_digit(z2[z1.len() as int]));
        } else {
            assert(n2[z2.len() as int] == ' ');
            assert(n1[z2.len() as int] == z1[z2.len() as int]);
            assert(is_digit(z1[z2.len() as int]));
        }
    }
}

/// Organizing an album never sends two tracks to the same path, so no
/// transferred file overwrites another.
pub proof fn lemma_organize_destinations_distinct(
    dest: Seq<char>,
    artist: Seq<char>,
    tracks: Seq<MusicaInfo>,
    i: int,
    j: int,
)
    requires
        0 <= i < tracks.len(),
        0 <= j < tracks.len(),
        i != j,
    ensures
        planned_destination(dest, artist, i as nat, tracks[i]) != planned_destination(
            dest,
            artist,
            j as nat,
            tracks[j],
        ),
{
    let a = track_file_name_spec(
        i as nat,
        artist,
        tracks[i].nome_editado@,
        extension_or_empty(tracks[i].arquivo_original@),
    );
    let b = track_file_name_spec(
        j as nat,
        artist,
        tracks[j].nome_editado@,
        extension_or_empty(tracks[j].arquivo_original@),
    );
    lemma_track_names_distinct(
        i as nat,
        j as nat,
        artist,
        tracks[i].nome_editado@,
        extension_or_empty(tracks[i].arquivo_original@),
        artist,
        tracks[j].nome_editado@,
        extension_or_empty(tracks[j].arquivo_original@),
    );
    let pre: Seq<char> = if dest.len() == 0 {
        Seq::empty()
    } else if dest.last() == '/' {
        dest
    } else {
        dest + seq!['/']
    };
    assert(join_spec(dest, a) =~= pre + a);
    assert(join_spec(dest, b) =~= pre + b);
    if pre + a == pre + b {
        assert((pre + a).skip(pre.len() as int) =~= a);
        assert((pre + b).skip(pre.len() as int) =~= b);
    }
}

} // verus!
