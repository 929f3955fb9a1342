//! Where profiles are kept: one TOML file per profile in a directory.
use vstd::prelude::*;

use crate::text::{
    chars_of, has_prefix, join2, join_path, lemma_text_lt_irreflexive, lemma_text_lt_transitive,
    path_join, string_from_chars, text_less, text_lt,
};

verus! {

broadcast use vstd::seq_lib::group_seq_properties;

/// Reads and writes profiles as `<name>.toml` files in one directory.
#[derive(Debug)]
pub struct ProfileStore {
    dir: String,
}

/// `name` names a profile file: it ends in `.toml` and has a stem.
pub open spec fn is_profile_file(name: Seq<char>) -> bool {
    name.len() > 5 && name.subrange(name.len() - 5, name.len() as int) == ".toml"@
}

/// The profile a file name holds, if it is a profile file.
pub open spec fn profile_of_file(name: Seq<char>) -> Option<Seq<char>> {
    if is_profile_file(name) {
        Some(name.subrange(0, name.len() - 5))
    } else {
        None
    }
}

/// `<home>/.config/audibian/profiles`.
pub open spec fn profiles_dir_of(home: Seq<char>) -> Seq<char> {
    join_path(join_path(join_path(home, ".config"@), "audibian"@), "profiles"@)
}

/// Where profiles are stored, under the home directory `home`.
pub fn profiles_dir(home: &str) -> (r: String)
    ensures
        r@ == profiles_dir_of(home@),
{
    let a = path_join(home, ".config");
    let b = path_join(a.as_str(), "audibian");
    path_join(b.as_str(), "profiles")
}

/// Names in non-decreasing text order.
pub open spec fn sorted_texts(s: Seq<Seq<char>>) -> bool {
    forall|a: int, b: int| 0 <= a < b < s.len() ==> !text_lt(#[trigger] s[b], #[trigger] s[a])
}

pub open spec fn texts_of(v: Seq<String>) -> Seq<Seq<char>> {
    v.map_values(|s: String| s@)
}

impl ProfileStore {
    pub closed spec fn dir_text(&self) -> Seq<char> {
        self.dir@
    }

    /// A store for the directory `dir`.
    pub fn new(dir: String) -> (r: Self)
        ensures
            r.dir_text() == dir@,
    {
        ProfileStore { dir }
    }

    /// The directory where profiles are stored.
    pub fn dir(&self) -> (r: &String)
        ensures
            r@ == self.dir_text(),
    {
        &self.dir
    }

    /// The file that holds profile `name`.
    pub fn profile_path(&self, name: &str) -> (r: String)
        ensures
            r@ == join_path(self.dir_text(), name@ + ".toml"@),
    {
        let file = join2(name, ".toml");
        path_join(self.dir.as_str(), file.as_str())
    }
}

fn comes_before(key: &[char], other: &String) -> (r: bool)
    ensures
        r == text_lt(key@, other@),
{
    let o = chars_of(other.as_str());
    text_less(key, o.as_slice())
}

fn profile_name(file: &str) -> (r: Option<String>)
    ensures
        r is Some == profile_of_file(file@) is Some,
        r matches Some(n) ==> profile_of_file(file@) == Some(n@),
{
    let cs = chars_of(file);
    let n = cs.len();
    if n <= 5 {
        return None;
    }
    let tail: [char; 5] = ['.', 't', 'o', 'm', 'l'];
    let mut i: usize = 0;
    proof {
        reveal_strlit(".toml");
    }
    while i < 5
        invariant
            n == cs@.len(),
            cs@ == file@,
            n > 5,
            i <= 5,
            tail@ == ".toml"@,
            forall|j: int| 0 <= j < i ==> cs@[n - 5 + j] == tail@[j],
        decreases 5 - i,
    {
        if cs[n - 5 + i] != tail[i] {
            proof {
                assert(cs@.subrange(n - 5, n as int)[i as int] != ".toml"@[i as int]);
                assert(cs@.subrange(n - 5, n as int) != ".toml"@);
                assert(!is_profile_file(file@));
            }
            return None;
        }
        i += 1;
    }
    assert(cs@.subrange(n - 5, n as int) =~= ".toml"@);
    let mut stem: Vec<char> = Vec::new();
    let mut k: usize = 0;
    while k < n - 5
        invariant
            n == cs@.len(),
            cs@ == file@,
            n > 5,
            k <= n - 5,
            stem@ == cs@.subrange(0, k as int),
        decreases n - 5 - k,
    {
        stem.push(cs[k]);
        assert(cs@.subrange(0, k as int).push(cs@[k as int]) =~= cs@.subrange(0, k + 1));
        k += 1;
    }
    Some(string_from_chars(stem.as_slice()))
}

/// The names of the profiles among the file names `files` (those ending in
/// `.toml`, without that ending), in text order.
pub fn profile_names(files: &[String]) -> (r: Vec<String>)
    ensures
        texts_of(r@).to_multiset() == texts_of(files@).filter_map(
            |f: Seq<char>| profile_of_file(f),
        ).to_multiset(),
        sorted_texts(texts_of(r@)),
{
    let ghost pick = |f: Seq<char>| profile_of_file(f);
    let mut out: Vec<String> = Vec::new();
    let mut i: usize = 0;
    proof {
        assert(texts_of(files@).take(0) =~= Seq::<Seq<char>>::empty());
        assert(texts_of(out@) =~= Seq::<Seq<char>>::empty());
    }
    while i < files.len()
        invariant
            i <= files@.len(),
            pick == (|f: Seq<char>| profile_of_file(f)),
            texts_of(out@).to_multiset() == texts_of(files@).take(i as int).filter_map(pick).to_multiset(),
            sorted_texts(texts_of(out@)),
        decreases files@.len() - i,
    {
        let ghost fv = texts_of(files@);
        proof {
            assert(fv.take(i + 1).drop_last() =~= fv.take(i as int));
            assert(fv.take(i + 1).last() == files@[i as int]@);
        }
        match profile_name(files[i].as_str()) {
            Some(name) => {
                let ghost before = texts_of(out@);
                let key = chars_of(name.as_str());
                let mut k: usize = 0;
                while k < out.len() && !comes_before(key.as_slice(), &out[k])
                    invariant
                        k <= out@.len(),
                        before == texts_of(out@),
                        key@ == name@,
                        forall|m: int| 0 <= m < k ==> !text_lt(name@, #[trigger] before[m]),
                    decreases out@.len() - k,
                {
                    k += 1;
                }
                let ghost nv = name@;
                out.insert(k, name);
                proof {
                    let after = texts_of(out@);
                    assert(after =~= before.insert(k as int, nv));
                    vstd::seq_lib::to_multiset_insert(before, k as int, nv);
                    assert(fv.take(i + 1).filter_map(pick) == fv.take(i as int).filter_map(pick) + seq![nv]);
                    assert(fv.take(i as int).filter_map(pick).push(nv) =~= fv.take(i as int).filter_map(pick) + seq![nv]);
                    assert forall|a: int, b: int| 0 <= a < b < after.len() implies !text_lt(
                        #[trigger] after[b],
                        #[trigger] after[a],
                    ) by {
                        lemma_text_lt_irreflexive(nv);
                        if b < k {
                        } else if b == k {
                        } else if a < k {
                            assert(after[b] == before[b - 1]);
                            if text_lt(before[b - 1], before[a]) {
                                if b - 1 > k {
                                    assert(!text_lt(before[b - 1], before[k as int]));
                                    lemma_text_lt_transitive(before[b - 1], nv, before[k as int]);
                                } else {
                                    lemma_text_lt_transitive(before[k as int], nv, before[k as int]);
                                    lemma_text_lt_irreflexive(before[k as int]);
                                }
                            }
                            if text_lt(before[b - 1], nv) {
                                if b - 1 > k {
                                    lemma_text_lt_transitive(before[b - 1], nv, before[k as int]);
                                } else {
                                    lemma_text_lt_transitive(nv, before[k as int], nv);
                                }
                            }
                        } else if a == k {
                            assert(after[b] == before[b - 1]);
                            if text_lt(before[b - 1], nv) {
                                if b - 1 > k {
                                    lemma_text_lt_transitive(before[b - 1], nv, before[k as int]);
                                } else {
                                    lemma_text_lt_transitive(nv, before[k as int], nv);
                                }
                            }
                        } else {
                            assert(after[b] == before[b - 1]);
                            assert(after[a] == before[a - 1]);
                        }
                    }
                }
            },
            None => {
                proof {
                    assert(fv.take(i + 1).filter_map(pick) == fv.take(i as int).filter_map(pick));
                }
            },
        }
        i += 1;
    }
    proof {
        assert(texts_of(files@).take(files@.len() as int) =~= texts_of(files@));
    }
    out
}

} // verus!
