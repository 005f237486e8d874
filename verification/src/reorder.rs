//! Choosing the order of an album's tracks one pick at a time, with an
//! optional new title for each pick.
use vstd::prelude::*;
use crate::organize::{stem_or_empty, track_from_path, MusicaInfo};
use crate::text::{is_blank, owned, push_zero_pad2, str_eq, trim, trim_spec, zero_pad2};

verus! {

broadcast use vstd::seq_lib::group_to_multiset_ensures;

/// The tracks still to be placed, and those already placed, in order.
pub struct ReorderSession {
    pub disponiveis: Vec<MusicaInfo>,
    pub finais: Vec<MusicaInfo>,
}

/// The files of a sequence of tracks.
pub open spec fn paths_of(s: Seq<MusicaInfo>) -> Seq<String> {
    s.map_values(|t: MusicaInfo| t.arquivo_original)
}

/// The titles of a sequence of tracks.
pub open spec fn titles_of(s: Seq<MusicaInfo>) -> Seq<Seq<char>> {
    s.map_values(|t: MusicaInfo| t.nome_editado@)
}

/// The title a track carries after a pick: the answer, trimmed, when one was
/// given and it is not blank; the old title otherwise.
pub open spec fn edited_title(old: Seq<char>, answer: Option<Seq<char>>) -> Seq<char> {
    match answer {
        Some(a) => if trim_spec(a).len() > 0 {
            trim_spec(a)
        } else {
            old
        },
        None => old,
    }
}

/// A non-blank answer becomes the title whole, only its surrounding white
/// space removed; a blank answer or no answer keeps the old title.
pub proof fn lemma_edited_title_is_trimmed_answer(old: Seq<char>, answer: Seq<char>)
    ensures
        trim_spec(answer).len() > 0 ==> edited_title(old, Some(answer)) == trim_spec(answer),
        trim_spec(answer).len() == 0 ==> edited_title(old, Some(answer)) == old,
        edited_title(old, None) == old,
{
}

impl ReorderSession {
    /// Every file of the session, placed ones first.
    pub open spec fn all_paths(&self) -> Seq<String> {
        paths_of(self.finais@) + paths_of(self.disponiveis@)
    }

    /// A session over `paths`, all of them still to be placed, each titled by
    /// its stem.
    pub fn new(paths: Vec<String>) -> (r: ReorderSession)
        ensures
            r.finais@.len() == 0,
            r.disponiveis@.len() == paths@.len(),
            forall|k: int|
                0 <= k < paths@.len() ==> (#[trigger] r.disponiveis@[k]).arquivo_original
                    == paths@[k] && r.disponiveis@[k].nome_editado@ == stem_or_empty(
                    paths@[k]@,
                ),
            r.all_paths() == paths@,
    {
        let mut disponiveis: Vec<MusicaInfo> = Vec::new();
        let n = paths.len();
        let mut i: usize = 0;
        while i < n
            invariant
                n == paths@.len(),
                i <= n,
                disponiveis@.len() == i,
                forall|k: int|
                    0 <= k < i ==> (#[trigger] disponiveis@[k]).arquivo_original == paths@[k]
                        && disponiveis@[k].nome_editado@ == stem_or_empty(paths@[k]@),
            decreases n - i,
        {
            disponiveis.push(track_from_path(paths[i].clone()));
            i = i + 1;
        }
        let r = ReorderSession { disponiveis, finais: Vec::new() };
        assert(r.all_paths() =~= paths@);
        r
    }

    /// Whether every track has been placed.
    pub fn is_done(&self) -> (r: bool)
        ensures
            r == (self.disponiveis@.len() == 0),
    {
        self.disponiveis.len() == 0
    }

    /// The position (from 1) that the next pick takes.
    pub fn next_position(&self) -> (r: usize)
        requires
            self.finais@.len() < usize::MAX,
        ensures
            r == self.finais@.len() + 1,
    {
        self.finais.len() + 1
    }

    /// The titles offered for the next pick, in order.
    pub fn options(&self) -> (r: Vec<String>)
        ensures
            r@.len() == self.disponiveis@.len(),
            forall|k: int| 0 <= k < r@.len() ==> (#[trigger] r@[k])@ == self.disponiveis@[k].nome_editado@,
    {
        let mut r: Vec<String> = Vec::new();
        let n = self.disponiveis.len();
        let mut i: usize = 0;
        while i < n
            invariant
                n == self.disponiveis@.len(),
                i <= n,
                r@.len() == i,
                forall|k: int| 0 <= k < i ==> (#[trigger] r@[k])@ == self.disponiveis@[k].nome_editado@,
            decreases n - i,
        {
            r.push(self.disponiveis[i].nome_editado.clone());
            i = i + 1;
        }
        r
    }

    /// The first track still to be placed whose title is `selected`.
    pub fn find(&self, selected: &str) -> (r: Option<usize>)
        ensures
            match r {
                Some(k) => k < self.disponiveis@.len() && self.disponiveis@[k as int].nome_editado@
                    == selected@ && forall|q: int|
                    0 <= q < k ==> (#[trigger] self.disponiveis@[q]).nome_editado@ != selected@,
                None => forall|q: int|
                    0 <= q < self.disponiveis@.len() ==> (#[trigger] self.disponiveis@[q]).nome_editado@
                        != selected@,
            },
    {
        let n = self.disponiveis.len();
        let mut i: usize = 0;
        while i < n
            invariant
                n == self.disponiveis@.len(),
                i <= n,
                forall|q: int| 0 <= q < i ==> (#[trigger] self.disponiveis@[q]).nome_editado@ != selected@,
            decreases n - i,
        {
            if str_eq(self.disponiveis[i].nome_editado.as_str(), selected) {
                return Some(i);
            }
            i = i + 1;
        }
        None
    }

    /// Places the track at `index` after those already placed. When `answer`
    /// holds a title that is not blank, the track takes it, trimmed.
    pub fn place(&mut self, index: usize, answer: Option<String>)
        requires
            index < old(self).disponiveis@.len(),
        ensures
            final(self).disponiveis@ == old(self).disponiveis@.remove(index as int),
            final(self).finais@.len() == old(self).finais@.len() + 1,
            final(self).finais@.drop_last() == old(self).finais@,
            final(self).finais@.last().arquivo_original == old(
                self,
            ).disponiveis@[index as int].arquivo_original,
            final(self).finais@.last().nome_editado@ == edited_title(
                old(self).disponiveis@[index as int].nome_editado@,
                match answer {
                    Some(a) => Some(a@),
                    None => None,
                },
            ),
            final(self).all_paths().to_multiset() == old(self).all_paths().to_multiset(),
            answer is Some && trim_spec(answer->0@).len() > 0
                ==> final(self).finais@.last().nome_editado@ == trim_spec(answer->0@),
            answer is None || trim_spec(answer->0@).len() == 0
                ==> final(self).finais@.last().nome_editado == old(self).disponiveis@[index as int].nome_editado,
    {
        let ghost f0 = self.finais@;
        let ghost d0 = self.disponiveis@;
        let mut m = self.disponiveis.remove(index);
        match answer {
            Some(a) => {
                if !is_blank(a.as_str()) {
                    m.nome_editado = owned(trim(a.as_str()));
                }
            },
            None => {},
        }
        self.finais.push(m);
        proof {
            let x = d0[index as int].arquivo_original;
            assert(self.finais@.drop_last() =~= f0);
            assert(paths_of(self.finais@) =~= paths_of(f0).push(x));
            assert(paths_of(self.disponiveis@) =~= paths_of(d0).remove(index as int));
            let pf = paths_of(f0);
            let pd = paths_of(d0);
            vstd::seq_lib::lemma_multiset_commutative(pf.push(x), pd.remove(index as int));
            vstd::seq_lib::lemma_multiset_commutative(pf, pd);
            assert(pd[index as int] == x);
            assert(pd.remove(index as int).to_multiset() == pd.to_multiset().remove(x));
            assert(pd.to_multiset().contains(x)) by {
                assert(pd.contains(x));
            }
            assert(self.all_paths().to_multiset() =~= old(self).all_paths().to_multiset());
        }
    }

    /// The line that shows the track placed at `index` (from 0) in the final
    /// order: `"  {index + 1:02}. {title}"`.
    pub fn order_line(&self, index: usize) -> (r: String)
        requires
            index < self.finais@.len(),
        ensures
            r@ == seq![' ', ' '] + zero_pad2((index + 1) as nat) + seq!['.', ' '] + self.finais@[index as int].nome_editado@,
    {
        let _n = self.finais.len();
        let mut r = String::new();
        r.append("  ");
        push_zero_pad2(&mut r, index + 1);
        r.append(". ");
        r.append(self.finais[index].nome_editado.as_str());
        proof {
            reveal_strlit("  ");
            reveal_strlit(". ");
            assert("  "@ =~= seq![' ', ' ']);
            assert(". "@ =~= seq!['.', ' ']);
        }
        assert(r@ =~= seq![' ', ' '] + zero_pad2((index + 1) as nat) + seq!['.', ' '] + self.finais@[index as int].nome_editado@);
        r
    }

    /// The tracks in the order they were placed.
    pub fn finish(self) -> (r: Vec<MusicaInfo>)
        ensures
            r@ == self.finais@,
    {
        self.finais
    }
}

/// Once nothing is left to place, the placed tracks hold every file of the
/// session exactly as often as it was there: with `new` (which puts every
/// given file in the session) and `place` (which keeps the files of the
/// session), each given file ends up placed exactly once.
pub proof fn lemma_finished_session_places_every_file(s: ReorderSession)
    requires
        s.disponiveis@.len() == 0,
    ensures
        paths_of(s.finais@).to_multiset() == s.all_paths().to_multiset(),
{
    assert(paths_of(s.disponiveis@) =~= Seq::<String>::empty());
    assert(s.all_paths() =~= paths_of(s.finais@));
}

} // verus!
