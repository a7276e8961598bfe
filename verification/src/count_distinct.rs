//! Counting the distinct comma-separated tokens of a line of text.

use vstd::prelude::*;
use crate::text::{find_char, find_char_from, lemma_find_char, str_eq};

verus! {

/// The comma-separated tokens of `s` from position `i` on: every comma ends
/// a token, and the rest of the text is the last one (so an empty text is
/// one empty token).
pub open spec fn split_commas_from(s: Seq<char>, i: int) -> Seq<Seq<char>>
    decreases s.len() - i,
{
    let p = find_char(s, i, ',');
    if i <= p < s.len() {
        seq![s.subrange(i, p)] + split_commas_from(s, p + 1)
    } else {
        seq![s.subrange(i, s.len() as int)]
    }
}

/// The comma-separated tokens of `s`.
pub open spec fn split_commas(s: Seq<char>) -> Seq<Seq<char>> {
    split_commas_from(s, 0)
}

/// Counts the distinct tokens among the comma-separated tokens of the input.
pub fn new_count_distinct(input_str: &str) -> (r: usize)
    requires
        input_str@.len() <= usize::MAX,
    ensures
        r == split_commas(input_str@).to_set().len(),
{
    let ghost s = input_str@;
    let n = input_str.unicode_len();
    let mut uniq: Vec<String> = Vec::new();
    let mut start: usize = 0;
    let ghost done: Seq<Seq<char>> = Seq::empty();
    let mut done_exec: Ghost<Seq<Seq<char>>> = Ghost(done);
    loop
        invariant_except_break
            split_commas(s) == done_exec@ + split_commas_from(s, start as int),
            uniq@.map_values(|t: String| t@).to_set() == done_exec@.to_set(),
        invariant
            s == input_str@,
            n == s.len() <= usize::MAX,
            0 <= start <= n,
            uniq@.map_values(|t: String| t@).no_duplicates(),
        ensures
            uniq@.map_values(|t: String| t@).to_set() == split_commas(s).to_set(),
        decreases n - start,
    {
        let p = find_char_from(input_str, start, ',');
        proof {
            lemma_find_char(s, start as int, ',');
        }
        let token = input_str.substring_char(start, p).to_owned();
        let mut present = false;
        let mut j: usize = 0;
        while j < uniq.len()
            invariant
                0 <= j <= uniq@.len(),
                present ==> uniq@.map_values(|t: String| t@).contains(token@),
                !present ==> forall|k: int| 0 <= k < j ==> uniq@[k]@ != token@,
            decreases uniq@.len() - j,
        {
            if str_eq(uniq[j].as_str(), token.as_str()) {
                proof {
                    assert(uniq@.map_values(|t: String| t@)[j as int] == token@);
                }
                present = true;
            }
            j = j + 1;
        }
        let ghost olduniq = uniq@;
        if !present {
            proof {
                assert(forall|k: int|
                    0 <= k < olduniq.len() ==> olduniq.map_values(|t: String| t@)[k]
                        == #[trigger] olduniq[k]@);
                assert(!olduniq.map_values(|t: String| t@).contains(token@));
            }
            uniq.push(token);
            proof {
                assert(uniq@.map_values(|t: String| t@) =~= olduniq.map_values(|t: String| t@).push(
                    token@,
                ));
            }
        }
        proof {
            let tok = s.subrange(start as int, p as int);
            let olddone = done_exec@;
            done_exec@ = done_exec@.push(tok);
            assert(done_exec@ =~= olddone + seq![tok]);
            Seq::lemma_to_set_insert_commutes(olddone, tok);
            assert(done_exec@.to_set() =~= olddone.to_set().insert(tok));
            let oldmapped = olduniq.map_values(|t: String| t@);
            if !present {
                assert(uniq@ =~= olduniq + seq![token]);
                assert(uniq@.map_values(|t: String| t@) =~= oldmapped + seq![tok]);
                Seq::lemma_to_set_insert_commutes(oldmapped, tok);
            } else {
                assert(uniq@ == olduniq);
                assert(oldmapped.to_set().contains(tok));
                assert(oldmapped.to_set() =~= olddone.to_set().insert(tok));
            }
            assert(uniq@.map_values(|t: String| t@).to_set() =~= done_exec@.to_set());
        }
        if p == n {
            proof {
                assert(split_commas_from(s, start as int) =~= seq![
                    s.subrange(start as int, n as int),
                ]);
                assert(done_exec@ =~= split_commas(s));
                assert(uniq@.map_values(|t: String| t@).to_set() == split_commas(s).to_set());
            }
            break ;
        }
        proof {
            assert(split_commas(s) =~= done_exec@ + split_commas_from(s, p + 1));
        }
        start = p + 1;
    }
    proof {
        assert(uniq@.map_values(|t: String| t@).to_set() == split_commas(s).to_set());
        uniq@.map_values(|t: String| t@).unique_seq_to_set();
        assert(uniq@.map_values(|t: String| t@).len() == uniq@.len());
    }
    uniq.len()
}

} // verus!
