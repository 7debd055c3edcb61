//! From the lines read on standard input to the sorted paths and their renames.

use vstd::prelude::*;
use crate::edit::{
    all_renamed, distinct_keys, first_failure, rename_outcome,
    renames_map, Edit,
};
use crate::error::Error;
use crate::order::{is_stable_sort_by_len, lemma_sort_keeps_texts, sort_longest_first};
use crate::path_map::{path_map_contents, path_map_keys, PathMap};
use crate::paths::{input_key, input_key_spec, texts};
use crate::replacer::Replacer;

verus! {

/// The keys of the lines that have one, in input order.
pub open spec fn input_keys_spec(lines: Seq<Seq<char>>) -> Seq<Seq<char>>
    decreases lines.len(),
{
    if lines.len() == 0 {
        Seq::empty()
    } else {
        let rest = input_keys_spec(lines.drop_last());
        match input_key_spec(lines.last()) {
            Some(k) => rest.push(k),
            None => rest,
        }
    }
}

/// Every line that has a key gives one, in input order, and no other key
/// comes: the keys are the lines' keys with the lines that have none left out.
pub proof fn lemma_every_keyed_line_kept(lines: Seq<Seq<char>>)
    ensures
        input_keys_spec(lines) == lines.filter_map(|l: Seq<char>| input_key_spec(l)),
        input_keys_spec(lines).len() == lines.filter(|l: Seq<char>| input_key_spec(l) is Some).len(),
        forall|i: int|
            0 <= i < lines.len() && input_key_spec(#[trigger] lines[i]) is Some
                ==> input_keys_spec(lines).contains(input_key_spec(lines[i])->0),
    decreases lines.len(),
{
    reveal_with_fuel(Seq::filter, 1);
    let f = |l: Seq<char>| input_key_spec(l);
    let pred = |l: Seq<char>| input_key_spec(l) is Some;
    if lines.len() > 0 {
        let rest = lines.drop_last();
        lemma_every_keyed_line_kept(rest);
        let prev = input_keys_spec(rest);
        match input_key_spec(lines.last()) {
            Some(k) => {
                assert(prev.push(k) =~= prev + seq![k]);
            },
            None => {},
        }
        assert(lines.filter(pred) == if pred(lines.last()) {
            rest.filter(pred).push(lines.last())
        } else {
            rest.filter(pred)
        });
        assert forall|i: int|
            0 <= i < lines.len() && input_key_spec(#[trigger] lines[i]) is Some
                implies input_keys_spec(lines).contains(input_key_spec(lines[i])->0) by {
            if i < lines.len() - 1 {
                assert(rest[i] == lines[i]);
                let w = choose|w: int| 0 <= w < prev.len() && prev[w] == input_key_spec(rest[i])->0;
                assert(input_keys_spec(lines)[w] == prev[w]);
            } else {
                let k = input_key_spec(lines.last())->0;
                assert(input_keys_spec(lines)[prev.len() as int] == k);
            }
        }
    } else {
        assert(lines.filter(pred) =~= Seq::<Seq<char>>::empty());
    }
}

/// The key of each line, skipping lines without a file name or parent.
pub fn input_keys(lines: &[String]) -> (keys: Vec<String>)
    ensures
        texts(keys@) == input_keys_spec(texts(lines@)),
{
    let ghost ls = texts(lines@);
    let mut keys: Vec<String> = Vec::new();
    let n = lines.len();
    for i in 0..n
        invariant
            n == lines@.len(),
            ls == texts(lines@),
            texts(keys@) == input_keys_spec(ls.take(i as int)),
    {
        assert(ls.take(i + 1).drop_last() == ls.take(i as int));
        assert(ls[i as int] == lines@[i as int]@);
        match input_key(lines[i].as_str()) {
            Some(k) => {
                keys.push(k);
            },
            None => {},
        }
        assert(texts(keys@) =~= input_keys_spec(ls.take(i + 1)));
    }
    assert(ls.take(n as int) == ls);
    keys
}

/// A run over the paths given on standard input, with an optional rule.
pub struct App {
    replacer: Option<Replacer>,
}

impl App {
    /// The rule, if the run renames.
    pub closed spec fn rule(self) -> Option<Replacer> {
        self.replacer
    }

    pub fn new(replacer: Option<Replacer>) -> (a: Self)
        ensures
            a.rule() == replacer,
    {
        Self { replacer }
    }

    /// The keys of the input lines, longest first, and, with a rule, the new path
    /// of each; fails with the error of the first key, in that order, that cannot
    /// be renamed.
    pub fn prepare(&self, lines: &[String]) -> (r: Result<(Vec<String>, Option<PathMap>), Error>)
        ensures
            r matches Ok((ps, m)) ==> {
                &&& is_stable_sort_by_len(input_keys_spec(texts(lines@)), texts(ps@))
                &&& self.rule() is None ==> m is None
                &&& self.rule() matches Some(rep) ==> (m matches Some(mm) && path_map_contents(mm)
                    == renames_map(rep, texts(ps@)) && path_map_keys(mm) == distinct_keys(
                    texts(ps@),
                ))
            },
            r is Err <==> (self.rule() matches Some(rep) && !all_renamed(
                rep,
                input_keys_spec(texts(lines@)),
            )),
            r matches Err(e) ==> (e matches Error::Edit(ee) && self.rule() matches Some(rep)
                && exists|sorted: Seq<Seq<char>>|
                is_stable_sort_by_len(input_keys_spec(texts(lines@)), sorted) && first_failure(
                    rep,
                    sorted,
                    ee,
                )),
    {
        let mut sorted_paths = input_keys(lines);
        let ghost keys = texts(sorted_paths@);
        sort_longest_first(&mut sorted_paths);
        proof {
            lemma_sort_keeps_texts(keys, texts(sorted_paths@));
        }
        let ghost ps = texts(sorted_paths@);
        match &self.replacer {
            Some(replacer) => {
                let edit = Edit::new(replacer);
                match edit.parse(sorted_paths.as_slice()) {
                    Ok(m) => {
                        proof {
                            assert forall|i: int| 0 <= i < keys.len() implies
                                rename_outcome(*replacer, #[trigger] keys[i]) is Renamed by {
                                assert(keys.contains(keys[i]));
                                assert(ps.contains(keys[i]));
                            }
                        }
                        Ok((sorted_paths, Some(m)))
                    },
                    Err(e) => {
                        proof {
                            let k = choose|k: int|
                                0 <= k < ps.len() && !(rename_outcome(*replacer, #[trigger] ps[k]) is Renamed);
                            assert(ps.contains(ps[k]));
                            assert(keys.contains(ps[k]));
                        }
                        Err(Error::Edit(e))
                    },
                }
            },
            None => Ok((sorted_paths, None)),
        }
    }
}

} // verus!
