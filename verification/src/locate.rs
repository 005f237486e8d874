//! Where the music folder is: the Windows user's `Music` folder seen from
//! WSL, found through `USER` or the last component of `HOME`.
use vstd::prelude::*;
use crate::path::{last_index_of, last_segment};
use crate::path::last_index_in;
use crate::text::owned;

verus! {

pub open spec fn users_prefix() -> Seq<char> {
    seq!['/', 'm', 'n', 't', '/', 'c', '/', 'U', 's', 'e', 'r', 's', '/']
}

pub open spec fn music_suffix() -> Seq<char> {
    seq!['/', 'M', 'u', 's', 'i', 'c']
}

/// `/mnt/c/Users/{user}/Music`.
pub open spec fn windows_music_dir_spec(user: Seq<char>) -> Seq<char> {
    users_prefix() + user + music_suffix()
}

/// `/mnt/c/Users/Public/Music`, used when no candidate exists.
pub open spec fn fallback_music_dir() -> Seq<char> {
    windows_music_dir_spec(seq!['P', 'u', 'b', 'l', 'i', 'c'])
}

/// The folders tried, in order: the one named by `USER` when it is set,
/// then the one named by the last component of `HOME` when it is set.
pub open spec fn candidates_spec(user: Option<Seq<char>>, home: Option<Seq<char>>) -> Seq<
    Seq<char>,
> {
    let from_user: Seq<Seq<char>> = match user {
        Some(u) => seq![windows_music_dir_spec(u)],
        None => Seq::empty(),
    };
    let from_home: Seq<Seq<char>> = match home {
        Some(h) => seq![windows_music_dir_spec(last_segment(h))],
        None => Seq::empty(),
    };
    from_user + from_home
}

/// The folders tried: one from `USER` whenever it is set, whatever `HOME`
/// is, and then one from `HOME` whenever that is set, whatever `USER` is.
/// The `USER` one is `/mnt/c/Users/{user}/Music`; the `HOME` one uses the
/// characters after the last `/` of `HOME`.
pub proof fn lemma_candidates_written_out(user: Option<Seq<char>>, home: Option<Seq<char>>)
    ensures
        candidates_spec(user, home).len() == (if user is Some { 1int } else { 0 }) + (if home is Some {
            1int
        } else {
            0
        }),
        user is Some ==> candidates_spec(user, home)[0] == seq![
            '/',
            'm',
            'n',
            't',
            '/',
            'c',
            '/',
            'U',
            's',
            'e',
            'r',
            's',
            '/',
        ] + user->0 + seq!['/', 'M', 'u', 's', 'i', 'c'],
        home is Some ==> candidates_spec(user, home).last() == seq![
            '/',
            'm',
            'n',
            't',
            '/',
            'c',
            '/',
            'U',
            's',
            'e',
            'r',
            's',
            '/',
        ] + home->0.skip(last_index_of(home->0, '/') + 1) + seq!['/', 'M', 'u', 's', 'i', 'c'],
{
}

/// `/mnt/c/Users/{user}/Music`.
pub fn windows_music_dir(user: &str) -> (r: String)
    ensures
        r@ == windows_music_dir_spec(user@),
{
    let mut r = String::new();
    r.append("/mnt/c/Users/");
    r.append(user);
    r.append("/Music");
    proof {
        reveal_strlit("/mnt/c/Users/");
        reveal_strlit("/Music");
        assert("/mnt/c/Users/"@ =~= users_prefix());
        assert("/Music"@ =~= music_suffix());
        assert(r@ =~= windows_music_dir_spec(user@));
    }
    r
}

/// The last `/`-separated piece of `home` (`home.split('/').next_back()`).
pub fn home_user(home: &str) -> (r: &str)
    ensures
        r@ == last_segment(home@),
{
    let n = home.unicode_len();
    let start: usize = match last_index_in(home, 0, n, '/') {
        Some(k) => k + 1,
        None => 0,
    };
    assert(home@.subrange(0, n as int) =~= home@);
    assert(home@.skip(start as int) =~= home@.subrange(start as int, n as int));
    home.substring_char(start, n)
}

/// The music folders to try, in order, from the values of `USER` and `HOME`.
pub fn music_dir_candidates(user: Option<&str>, home: Option<&str>) -> (r: Vec<String>)
    ensures
        r@.map_values(|s: String| s@) == candidates_spec(
            match user {
                Some(u) => Some(u@),
                None => None,
            },
            match home {
                Some(h) => Some(h@),
                None => None,
            },
        ),
        r@.len() == (if user is Some { 1int } else { 0 }) + (if home is Some { 1int } else { 0 }),
        user is Some ==> r@[0]@ == users_prefix() + user->0@ + music_suffix(),
        home is Some ==> r@.last()@ == users_prefix() + last_segment(home->0@) + music_suffix(),
{
    let mut r: Vec<String> = Vec::new();
    match user {
        Some(u) => r.push(windows_music_dir(u)),
        None => {},
    }
    match home {
        Some(h) => r.push(windows_music_dir(home_user(h))),
        None => {},
    }
    assert(r@.map_values(|s: String| s@) =~= candidates_spec(
        match user {
            Some(u) => Some(u@),
            None => None,
        },
        match home {
            Some(h) => Some(h@),
            None => None,
        },
    ));
    r
}

/// The music folder: the first candidate that exists (`exists[k]` tells
/// whether `candidates[k]` does), or `/mnt/c/Users/Public/Music`.
pub fn choose_music_dir(candidates: &Vec<String>, exists: &Vec<bool>) -> (r: String)
    requires
        candidates@.len() == exists@.len(),
    ensures
        match first_existing(exists@) {
            Some(k) => r@ == candidates@[k]@,
            None => r@ == fallback_music_dir(),
        },
{
    let n = candidates.len();
    let mut i: usize = 0;
    while i < n
        invariant
            n == candidates@.len(),
            n == exists@.len(),
            i <= n,
            forall|k: int| 0 <= k < i ==> !(#[trigger] exists@[k]),
        decreases n - i,
    {
        if exists[i] {
            proof {
                lemma_first_existing(exists@, i as int);
            }
            return owned(candidates[i].as_str());
        }
        i = i + 1;
    }
    proof {
        lemma_first_existing(exists@, -1);
    }
    let r = windows_music_dir("Public");
    proof {
        reveal_strlit("Public");
        assert("Public"@ =~= seq!['P', 'u', 'b', 'l', 'i', 'c']);
    }
    r
}

/// The first index at which `exists` holds.
pub open spec fn first_existing(exists: Seq<bool>) -> Option<int> {
    if exists.contains(true) {
        Some(choose|k: int| 0 <= k < exists.len() && exists[k] && forall|q: int| 0 <= q < k ==> !exists[q])
    } else {
        None
    }
}

/// `first_existing` is `i` when `exists[i]` holds and no earlier entry does,
/// and `None` (for `i == -1`) when no entry holds.
proof fn lemma_first_existing(exists: Seq<bool>, i: int)
    requires
        -1 <= i < exists.len(),
        i >= 0 ==> exists[i],
        forall|q: int| 0 <= q < (if i >= 0 { i } else { exists.len() as int }) ==> !(#[trigger] exists[q]),
    ensures
        i >= 0 ==> first_existing(exists) == Some(i),
        i < 0 ==> first_existing(exists) is None,
{
    if i >= 0 {
        assert(exists.contains(true));
        let k = choose|k: int| 0 <= k < exists.len() && exists[k] && forall|q: int| 0 <= q < k ==> !exists[q];
        assert(0 <= k < exists.len() && exists[k] && forall|q: int| 0 <= q < k ==> !exists[q]);
        if k < i {
        } else if k > i {
            assert(!exists[i]);
        }
    } else {
        if exists.contains(true) {
            let k = choose|k: int| 0 <= k < exists.len() && exists[k];
            assert(!exists[k]);
        }
    }
}

} // verus!
