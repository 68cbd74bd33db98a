use vstd::prelude::*;
use crate::note::{note_key_in, note_key_spec};

verus! {

/// The tokens of `s` between single spaces, as `str::split(' ')` gives them:
/// two spaces in a row, or one at either end, make an empty token.
pub open spec fn split_spaces(s: Seq<char>) -> Seq<Seq<char>>
    decreases s.len(),
{
    if s.len() == 0 {
        seq![Seq::empty()]
    } else {
        let front = split_spaces(s.drop_last());
        if s.last() == ' ' {
            front.push(Seq::empty())
        } else {
            front.update(front.len() - 1, front.last().push(s.last()))
        }
    }
}

proof fn lemma_split_nonempty(s: Seq<char>)
    ensures
        split_spaces(s).len() >= 1,
    decreases s.len(),
{
    if s.len() > 0 {
        lemma_split_nonempty(s.drop_last());
    }
}

/// The tokens of a prefix `s[..i]` are tokens of `s`, but for the last, which
/// is one as well when a space follows it.
proof fn lemma_split_prefix(s: Seq<char>, i: int, m: int)
    requires
        0 <= i <= m <= s.len(),
    ensures
        ({
            let p = split_spaces(s.subrange(0, i));
            let q = split_spaces(s.subrange(0, m));
            &&& p.len() <= q.len()
            &&& forall|j: int| 0 <= j < p.len() - 1 ==> #[trigger] q[j] == p[j]
            &&& i < m && s[i] == ' ' ==> p.len() < q.len() && q[p.len() - 1] == p.last()
        }),
    decreases m - i,
{
    lemma_split_nonempty(s.subrange(0, i));
    if m > i {
        lemma_split_prefix(s, i, m - 1);
        lemma_split_nonempty(s.subrange(0, m - 1));
        assert(s.subrange(0, m).drop_last() =~= s.subrange(0, m - 1));
    }
}

/// The token that ends at a space is a token of the whole string.
proof fn lemma_split_tail(s: Seq<char>, i: int, done: Seq<Seq<char>>, last: Seq<char>)
    requires
        0 <= i < s.len(),
        s[i] == ' ',
        split_spaces(s.subrange(0, i)) == done.push(last),
    ensures
        done.len() < split_spaces(s).len(),
        split_spaces(s)[done.len() as int] == last,
        forall|j: int| 0 <= j < done.len() ==> #[trigger] split_spaces(s)[j] == done[j],
{
    lemma_split_prefix(s, i, s.len() as int);
    assert(s.subrange(0, s.len() as int) =~= s);
    let p = done.push(last);
    assert forall|j: int| 0 <= j < done.len() implies #[trigger] split_spaces(s)[j] == done[j] by {
        assert(p[j] == done[j]);
    }
}

/// Every token of `s` names a note.
pub open spec fn all_notes(s: Seq<char>) -> bool {
    forall|j: int| 0 <= j < split_spaces(s).len() ==> note_key_spec(#[trigger] split_spaces(s)[j]) is Some
}

/// A chord token that names no note.
#[derive(Debug, Clone, Copy, PartialEq, Eq, Structural)]
pub struct UnknownNoteError {
    /// Position of the token among the space-separated tokens, from 0.
    pub token_index: usize,
}

/// The voices of a chord, as key numbers, in the order they were written.
pub struct Chord {
    voices: Vec<u8>,
}

impl View for Chord {
    type V = Seq<u8>;

    closed spec fn view(&self) -> Seq<u8> {
        self.voices@
    }
}

impl Chord {
    /// Parses a space-separated list of note tokens such as `"C4 E4 G4"`. Every
    /// token must name a note: an empty or malformed one fails the whole chord,
    /// and the error gives the first such token.
    pub fn parse(s: &str) -> (r: Result<Chord, UnknownNoteError>)
        ensures
            r is Ok <==> all_notes(s@),
            r matches Ok(c) ==> {
                &&& c@.len() == split_spaces(s@).len()
                &&& forall|j: int| 0 <= j < c@.len() ==> note_key_spec(split_spaces(s@)[j]) == Some(#[trigger] c@[j])
            },
            r matches Err(e) ==> {
                &&& e.token_index < split_spaces(s@).len()
                &&& note_key_spec(split_spaces(s@)[e.token_index as int]) is None
                &&& forall|j: int| 0 <= j < e.token_index ==> note_key_spec(#[trigger] split_spaces(s@)[j]) is Some
            },
    {
        let n = s.unicode_len();
        let mut voices: Vec<u8> = Vec::new();
        let mut start: usize = 0;
        let mut i: usize = 0;
        let ghost mut done: Seq<Seq<char>> = Seq::empty();
        assert(s@.subrange(0, 0) =~= Seq::<char>::empty());
        assert(done.push(s@.subrange(0, 0)) =~= seq![Seq::<char>::empty()]);
        while i < n
            invariant
                n == s@.len(),
                start <= i <= n,
                split_spaces(s@.subrange(0, i as int)) == done.push(s@.subrange(start as int, i as int)),
                voices@.len() == done.len(),
                forall|j: int| 0 <= j < done.len() ==> note_key_spec(done[j]) == Some(#[trigger] voices@[j]),
            decreases n - i,
        {
            let ghost prefix = s@.subrange(0, i + 1);
            assert(prefix.drop_last() =~= s@.subrange(0, i as int));
            if s.get_char(i) == ' ' {
                match note_key_in(s, start, i) {
                    Some(k) => {
                        voices.push(k);
                    },
                    None => {
                        proof {
                            lemma_split_tail(s@, i as int, done, s@.subrange(start as int, i as int));
                            assert forall|j: int| 0 <= j < done.len() implies note_key_spec(
                                #[trigger] split_spaces(s@)[j],
                            ) is Some by {
                                assert(note_key_spec(done[j]) == Some(voices@[j]));
                            }
                        }
                        return Err(UnknownNoteError { token_index: voices.len() });
                    },
                }
                proof {
                    done = done.push(s@.subrange(start as int, i as int));
                }
                start = i + 1;
                assert(s@.subrange(start as int, i + 1) =~= Seq::<char>::empty());
            } else {
                assert(s@.subrange(start as int, i + 1) =~= s@.subrange(start as int, i as int).push(s@[i as int]));
            }
            i = i + 1;
        }
        assert(s@.subrange(0, n as int) =~= s@);
        match note_key_in(s, start, n) {
            Some(k) => {
                voices.push(k);
                let ghost all = done.push(s@.subrange(start as int, n as int));
                assert forall|j: int| 0 <= j < split_spaces(s@).len() implies note_key_spec(
                    #[trigger] split_spaces(s@)[j],
                ) is Some by {
                    assert(note_key_spec(all[j]) == Some(voices@[j]));
                }
                Ok(Chord { voices })
            },
            None => {
                assert forall|j: int| 0 <= j < done.len() implies note_key_spec(
                    #[trigger] split_spaces(s@)[j],
                ) is Some by {
                    assert(split_spaces(s@)[j] == done[j]);
                    assert(note_key_spec(done[j]) == Some(voices@[j]));
                }
                Err(UnknownNoteError { token_index: voices.len() })
            },
        }
    }

    /// The voices as key numbers.
    pub fn voices(&self) -> (r: &Vec<u8>)
        ensures
            r@ == self@,
    {
        &self.voices
    }

    /// Number of voices.
    pub fn voice_count(&self) -> (r: usize)
        ensures
            r == self@.len(),
    {
        self.voices.len()
    }
}

} // verus!
