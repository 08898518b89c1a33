//! Saved games: which files of the games directory are games, newest first.
//! The files are named by the moment they were saved, so their names sort
//! by time.

use vstd::prelude::*;
use crate::order::{descending, sort_texts, texts_of};
use crate::text::{chars_of, string_of};

verus! {

broadcast use vstd::seq_lib::group_to_multiset_ensures;

/// A file name whose extension is `pgn`: a stem that is not empty, then
/// `.pgn`, as `Path::extension` reads it.
pub open spec fn is_game_file(name: Seq<char>) -> bool {
    name.len() >= 5 && name.skip(name.len() - 4) == ".pgn"@
}

/// The game files among the first `n` names, in order.
pub open spec fn game_files(names: Seq<Seq<char>>, n: nat) -> Seq<Seq<char>>
    decreases n,
{
    if n == 0 || n > names.len() {
        seq![]
    } else if is_game_file(names[n - 1]) {
        game_files(names, (n - 1) as nat).push(names[n - 1])
    } else {
        game_files(names, (n - 1) as nat)
    }
}

fn ends_with_pgn(name: &Vec<char>) -> (r: bool)
    ensures
        r == is_game_file(name@),
{
    proof {
        reveal_strlit(".pgn");
    }
    let n = name.len();
    if n < 5 {
        return false;
    }
    let r = name[n - 4] == '.' && name[n - 3] == 'p' && name[n - 2] == 'g' && name[n - 1] == 'n';
    proof {
        if r {
            assert(name@.skip(n - 4) =~= ".pgn"@);
        } else {
            if name@.skip(n - 4) == ".pgn"@ {
                assert(name@.skip(n - 4)[0] == name@[n - 4]);
                assert(name@.skip(n - 4)[1] == name@[n - 3]);
                assert(name@.skip(n - 4)[2] == name@[n - 2]);
                assert(name@.skip(n - 4)[3] == name@[n - 1]);
            }
        }
    }
    r
}

pub open spec fn names_of(v: Seq<String>) -> Seq<Seq<char>> {
    v.map_values(|s: String| s@)
}

/// The saved games among the file names of the games directory, newest
/// first, at most `limit` of them: the game files in descending order,
/// the first `limit`.
pub fn list(names: Vec<String>, limit: usize) -> (games: Vec<String>)
    ensures
        exists|all: Seq<Seq<char>>| {
            &&& descending(all)
            &&& all.to_multiset() == game_files(names_of(names@), names@.len()).to_multiset()
            &&& names_of(games@) == all.take(if limit < all.len() { limit as int } else { all.len() as int })
        },
{
    let ghost nv = names_of(names@);
    let mut kept: Vec<Vec<char>> = Vec::new();
    let mut i: usize = 0;
    while i < names.len()
        invariant
            nv == names_of(names@),
            i <= names@.len(),
            texts_of(kept@) == game_files(nv, i as nat),
        decreases names.len() - i,
    {
        let name = chars_of(names[i].as_str());
        proof {
            assert(nv[i as int] == name@);
        }
        if ends_with_pgn(&name) {
            let ghost before = texts_of(kept@);
            kept.push(name);
            proof {
                assert(texts_of(kept@) =~= before.push(nv[i as int]));
            }
        }
        i = i + 1;
    }
    let sorted = sort_texts(kept);
    let ghost sv = texts_of(sorted@);
    let mut games: Vec<String> = Vec::new();
    let count: usize = if limit < sorted.len() { limit } else { sorted.len() };
    let mut j: usize = 0;
    while j < count
        invariant
            count <= sorted@.len(),
            sv == texts_of(sorted@),
            j <= count,
            names_of(games@) == sv.reverse().take(j as int),
        decreases count - j,
    {
        let s = string_of(sorted[sorted.len() - 1 - j].as_slice());
        proof {
            assert(s@ == sv.reverse()[j as int]);
        }
        let ghost before = names_of(games@);
        games.push(s);
        j = j + 1;
        proof {
            assert(names_of(games@) =~= before.push(sv.reverse()[j - 1]));
            assert(sv.reverse().take(j as int) =~= sv.reverse().take(j - 1).push(sv.reverse()[j - 1]));
        }
    }
    proof {
        let all = sv.reverse();
        sv.lemma_reverse_to_multiset();
        assert forall|a: int, b: int| 0 <= a < b < all.len() implies !crate::order::text_less(all[a], all[b]) by {
            assert(all[a] == sv[sv.len() - 1 - a]);
            assert(all[b] == sv[sv.len() - 1 - b]);
        }
        assert(descending(all));
    }
    games
}

} // verus!
