use crate::random::{is_index_permutation, shuffled_indices};
use crate::text::{char_count, contains_string, strings_view, to_upper, uppercase_of};
use spacetimedb::rand::rngs::StdRng;
use vstd::prelude::*;

verus! {

broadcast use vstd::string::group_string_axioms;

/// A trigram with the words that contain it, as plain values.
pub type EntryView = (Seq<char>, Seq<Seq<char>>);

pub open spec fn entry_view(e: (String, Vec<String>)) -> EntryView {
    (e.0@, strings_view(e.1@))
}

pub open spec fn entries_view(es: Seq<(String, Vec<String>)>) -> Seq<EntryView> {
    es.map_values(|e: (String, Vec<String>)| entry_view(e))
}

/// The words of the last entry whose trigram is `t`.
pub open spec fn last_words(es: Seq<EntryView>, t: Seq<char>) -> Option<Seq<Seq<char>>>
    decreases es.len(),
{
    if es.len() == 0 {
        None
    } else if es.last().0 == t {
        Some(es.last().1)
    } else {
        last_words(es.drop_last(), t)
    }
}

pub open spec fn keys_unique(es: Seq<EntryView>) -> bool {
    forall|i: int, j: int| 0 <= i < j < es.len() ==> es[i].0 != es[j].0
}

/// What `bincode` decodes from `bytes` as a list of trigrams with their words.
pub uninterp spec fn decoded_entries(bytes: Seq<u8>) -> Option<Seq<EntryView>>;

#[verifier::external_type_specification]
#[verifier::external_body]
pub struct ExBincodeErrorKind(bincode::ErrorKind);

/// Relies on `bincode::deserialize`: the result depends on the bytes alone. A map
/// of strings to lists of strings is encoded as a list of pairs, so this reads the
/// dictionary's map with its entries in the order in which they were written.
#[verifier::external_body]
fn decode_entries(bytes: &[u8]) -> (r: Result<Vec<(String, Vec<String>)>, Box<bincode::ErrorKind>>)
    ensures
        r is Ok <==> decoded_entries(bytes@) is Some,
        r is Ok ==> decoded_entries(bytes@) == Some(entries_view(r->Ok_0@)),
{
    bincode::deserialize::<Vec<(String, Vec<String>)>>(bytes)
}

proof fn lemma_last_words_at(es: Seq<EntryView>, i: int)
    requires
        keys_unique(es),
        0 <= i < es.len(),
    ensures
        last_words(es, es[i].0) == Some(es[i].1),
    decreases es.len(),
{
    if i < es.len() - 1 {
        let d = es.drop_last();
        assert(d[i] == es[i]);
        lemma_last_words_at(d, i);
    }
}

proof fn lemma_last_words_absent(es: Seq<EntryView>, t: Seq<char>)
    requires
        forall|i: int| 0 <= i < es.len() ==> es[i].0 != t,
    ensures
        last_words(es, t) is None,
    decreases es.len(),
{
    if es.len() > 0 {
        let d = es.drop_last();
        assert forall|i: int| 0 <= i < d.len() implies d[i].0 != t by {
            assert(d[i] == es[i]);
        }
        lemma_last_words_absent(d, t);
    }
}

/// The dictionary: each trigram with the words that contain it.
pub struct TrigramMap {
    trigrams: Vec<(String, Vec<String>)>,
}

impl TrigramMap {
    pub closed spec fn view_entries(&self) -> Seq<EntryView> {
        entries_view(self.trigrams@)
    }

    /// Each trigram appears once.
    pub open spec fn wf(&self) -> bool {
        keys_unique(self.view_entries())
    }

    /// The words listed under `t`, if `t` is a trigram of the dictionary.
    pub open spec fn lookup(&self, t: Seq<char>) -> Option<Seq<Seq<char>>> {
        last_words(self.view_entries(), t)
    }

    /// Index of the entry whose trigram is `t`, if there is one.
    fn position(&self, t: &String) -> (r: Option<usize>)
        ensures
            r matches Some(i) ==> i < self.trigrams@.len() && self.trigrams@[i as int].0@ == t@,
            r is None ==> forall|i: int|
                0 <= i < self.trigrams@.len() ==> self.trigrams@[i].0@ != t@,
    {
        let mut i: usize = 0;
        while i < self.trigrams.len()
            invariant
                i <= self.trigrams@.len(),
                forall|j: int| 0 <= j < i ==> self.trigrams@[j].0@ != t@,
            decreases self.trigrams@.len() - i,
        {
            if self.trigrams[i].0 == *t {
                return Some(i);
            }
            i = i + 1;
        }
        None
    }

    /// The words listed under `t`.
    pub fn get(&self, t: &String) -> (r: Option<&Vec<String>>)
        requires
            self.wf(),
        ensures
            r is None <==> self.lookup(t@) is None,
            r matches Some(ws) ==> self.lookup(t@) == Some(strings_view(ws@)),
    {
        match self.position(t) {
            Some(i) => {
                proof {
                    assert(self.view_entries()[i as int] == entry_view(self.trigrams@[i as int]));
                    lemma_last_words_at(self.view_entries(), i as int);
                }
                Some(&self.trigrams[i].1)
            },
            None => {
                proof {
                    let es = self.view_entries();
                    assert forall|i: int| 0 <= i < es.len() implies es[i].0 != t@ by {
                        assert(es[i] == entry_view(self.trigrams@[i]));
                    }
                    lemma_last_words_absent(es, t@);
                }
                None
            },
        }
    }

    /// A dictionary of the given entries; where a trigram is listed more than
    /// once, its last list stands.
    pub fn from_entries(entries: Vec<(String, Vec<String>)>) -> (r: TrigramMap)
        ensures
            r.wf(),
            forall|t: Seq<char>| r.lookup(t) == last_words(entries_view(entries@), t),
    {
        let ghost all = entries_view(entries@);
        let mut rest = entries;
        let mut map = TrigramMap { trigrams: Vec::new() };
        while rest.len() > 0
            invariant
                map.wf(),
                all == entries_view(entries@),
                entries_view(rest@) == all.subrange(0, rest@.len() as int),
                rest@.len() <= all.len(),
                forall|t: Seq<char>| #[trigger]
                    map.lookup(t) is Some ==> map.lookup(t) == last_words(all, t),
                forall|t: Seq<char>|
                    map.lookup(t) is None ==> #[trigger] last_words(all, t) == last_words(
                        all.subrange(0, rest@.len() as int),
                        t,
                    ),
            decreases rest@.len(),
        {
            let ghost prefix = all.subrange(0, rest@.len() as int);
            let e = rest.pop().unwrap();
            let ghost shorter = all.subrange(0, rest@.len() as int);
            assert(prefix.drop_last() == shorter);
            assert(prefix.last() == entry_view(e));
            assert(entries_view(rest@) == shorter);
            let ghost old_map = map.view_entries();
            assert forall|t: Seq<char>| t != e.0@ implies last_words(prefix, t) == last_words(
                shorter,
                t,
            ) by {}
            match map.position(&e.0) {
                Some(i) => {
                    proof {
                        let es = map.view_entries();
                        assert(es[i as int] == entry_view(map.trigrams@[i as int]));
                        lemma_last_words_at(es, i as int);
                        assert forall|t: Seq<char>| map.lookup(t) is None implies #[trigger] last_words(
                            all,
                            t,
                        ) == last_words(shorter, t) by {
                            if t == e.0@ {
                                assert(false);
                            }
                        }
                    }
                },
                None => {
                    proof {
                        let es = map.view_entries();
                        assert forall|i: int| 0 <= i < es.len() implies es[i].0 != e.0@ by {
                            assert(es[i] == entry_view(map.trigrams@[i]));
                        }
                        lemma_last_words_absent(es, e.0@);
                    }
                    map.trigrams.push(e);
                    proof {
                        let es = map.view_entries();
                        assert(es == old_map.push(entry_view(e)));
                        assert(es.drop_last() == old_map);
                        assert(keys_unique(es));
                    }
                },
            }
        }
        proof {
            assert(all.subrange(0, 0) == Seq::<EntryView>::empty());
        }
        map
    }

    /// The dictionary that `bytes` encode, or `None` where they encode none.
    pub fn from_bincode(bytes: &[u8]) -> (r: Option<TrigramMap>)
        ensures
            r is None <==> decoded_entries(bytes@) is None,
            r matches Some(m) ==> m.wf() && forall|t: Seq<char>|
                m.lookup(t) == last_words(decoded_entries(bytes@)->Some_0, t),
    {
        match decode_entries(bytes) {
            Ok(entries) => Some(TrigramMap::from_entries(entries)),
            Err(_) => None,
        }
    }
}

pub open spec fn msg_word_used() -> Seq<char> {
    "Word has already been used"@
}

pub open spec fn msg_not_in_dictionary() -> Seq<char> {
    "Word not in dictionary"@
}

pub open spec fn msg_trigram_not_found() -> Seq<char> {
    "Trigram not found"@
}

/// A verdict with its message as plain characters.
pub open spec fn verdict_view(r: Result<(), String>) -> Result<(), Seq<char>> {
    match r {
        Ok(()) => Ok(()),
        Err(m) => Err(m@),
    }
}

/// The words of `ws` longer than ten characters, in order.
pub open spec fn long_words(ws: Seq<Seq<char>>) -> Seq<Seq<char>>
    decreases ws.len(),
{
    if ws.len() == 0 {
        Seq::empty()
    } else if ws.last().len() > 10 {
        long_words(ws.drop_last()).push(ws.last())
    } else {
        long_words(ws.drop_last())
    }
}

pub proof fn lemma_available_same_members(es: Seq<EntryView>, u1: Seq<Seq<char>>, u2: Seq<Seq<char>>)
    requires
        forall|t: Seq<char>| u1.contains(t) == u2.contains(t),
    ensures
        available(es, u1) == available(es, u2),
    decreases es.len(),
{
    if es.len() > 0 {
        lemma_available_same_members(es.drop_last(), u1, u2);
    }
}

pub proof fn lemma_available_excludes(es: Seq<EntryView>, used: Seq<Seq<char>>, t: Seq<char>)
    requires
        available(es, used).contains(t),
    ensures
        !used.contains(t),
    decreases es.len(),
{
    if es.len() > 0 {
        let d = available(es.drop_last(), used);
        if !used.contains(es.last().0) && es.last().1.len() > 200 {
            if t != es.last().0 {
                let k = choose|k: int| 0 <= k < d.push(es.last().0).len() && d.push(es.last().0)[k] == t;
                assert(d[k] == t);
                lemma_available_excludes(es.drop_last(), used, t);
            }
        } else {
            lemma_available_excludes(es.drop_last(), used, t);
        }
    }
}

/// The trigrams of `es` that are not in `used` and have more than 200 words, in order.
pub open spec fn available(es: Seq<EntryView>, used: Seq<Seq<char>>) -> Seq<Seq<char>>
    decreases es.len(),
{
    if es.len() == 0 {
        Seq::empty()
    } else if !used.contains(es.last().0) && es.last().1.len() > 200 {
        available(es.drop_last(), used).push(es.last().0)
    } else {
        available(es.drop_last(), used)
    }
}

impl TrigramMap {
    /// Whether `word` may be played on `trigram` when the words of `used` are taken.
    /// The trigram and the word are compared in upper case.
    pub open spec fn verdict(&self, word: Seq<char>, trigram: Seq<char>, used: Seq<Seq<char>>) -> Result<
        (),
        Seq<char>,
    > {
        if used.contains(word) {
            Err(msg_word_used())
        } else {
            match self.lookup(uppercase_of(trigram)) {
                None => Err(msg_trigram_not_found()),
                Some(ws) => if ws.contains(uppercase_of(word)) {
                    Ok(())
                } else {
                    Err(msg_not_in_dictionary())
                },
            }
        }
    }

    /// The trigrams that may still be chosen when those of `used` are taken.
    pub open spec fn available_trigrams(&self, used: Seq<Seq<char>>) -> Seq<Seq<char>> {
        available(self.view_entries(), used)
    }

    /// `r` is up to three of the long words of `t`, in upper case: the first ones
    /// of some ordering of them.
    pub open spec fn is_example_list(&self, t: Seq<char>, r: Seq<String>) -> bool {
        let lw = self.long_words_of(t);
        &&& r.len() == if lw.len() < 3 {
            lw.len()
        } else {
            3
        }
        &&& exists|order: Seq<usize>| #[trigger]
            is_index_permutation(order, lw.len()) && forall|k: int|
                0 <= k < r.len() ==> (#[trigger] r[k])@ == uppercase_of(lw[order[k] as int])
    }

    /// The words of `t`, in upper-case lookup, longer than ten characters.
    pub open spec fn long_words_of(&self, t: Seq<char>) -> Seq<Seq<char>> {
        match self.lookup(uppercase_of(t)) {
            Some(ws) => long_words(ws),
            None => Seq::empty(),
        }
    }
}

/// Checks that `word` may be played on `trigram`: it has not been used, the trigram
/// is in the dictionary, and the word is among its words.
pub fn is_word_valid(map: &TrigramMap, word: &str, trigram: &str, used_words: &[String]) -> (r:
    Result<(), String>)
    requires
        map.wf(),
    ensures
        verdict_view(r) == map.verdict(word@, trigram@, strings_view(used_words@)),
{
    let owned = word.to_string();
    if contains_string(used_words, &owned) {
        return Err("Word has already been used".to_string());
    }
    let key = to_upper(trigram);
    match map.get(&key) {
        Some(words) => {
            let upper = to_upper(word);
            if contains_string(words.as_slice(), &upper) {
                Ok(())
            } else {
                Err("Word not in dictionary".to_string())
            }
        },
        None => Err("Trigram not found".to_string()),
    }
}

/// The trigrams of the dictionary that are not in `used_trigrams` and have more
/// than 200 words.
pub fn get_available_trigrams(map: &TrigramMap, used_trigrams: &[String]) -> (r: Vec<String>)
    ensures
        strings_view(r@) == map.available_trigrams(strings_view(used_trigrams@)),
{
    let ghost es = map.view_entries();
    let ghost used = strings_view(used_trigrams@);
    let mut r: Vec<String> = Vec::new();
    let mut i: usize = 0;
    while i < map.trigrams.len()
        invariant
            i <= map.trigrams@.len(),
            es == map.view_entries(),
            es.len() == map.trigrams@.len(),
            used == strings_view(used_trigrams@),
            strings_view(r@) == available(es.subrange(0, i as int), used),
        decreases map.trigrams@.len() - i,
    {
        let ghost before = r@;
        assert(es.subrange(0, i as int + 1).drop_last() == es.subrange(0, i as int));
        assert(es[i as int] == entry_view(map.trigrams@[i as int]));
        let t = &map.trigrams[i].0;
        if !contains_string(used_trigrams, t) && map.trigrams[i].1.len() > 200 {
            r.push(t.clone());
            assert(strings_view(r@) == strings_view(before).push(t@));
        }
        i = i + 1;
    }
    assert(es.subrange(0, es.len() as int) == es);
    r
}

/// The first three (or fewer) words of `words` in the order `order`, in upper case.
pub fn select_examples(words: &Vec<String>, order: &Vec<usize>) -> (r: Vec<String>)
    requires
        forall|k: int| 0 <= k < order@.len() ==> order@[k] < words@.len(),
    ensures
        r@.len() == if order@.len() < 3 { order@.len() } else { 3 },
        forall|k: int|
            0 <= k < r@.len() ==> (#[trigger] r@[k])@ == uppercase_of(words@[order@[k] as int]@),
{
    let mut r: Vec<String> = Vec::new();
    let mut k: usize = 0;
    while k < order.len() && k < 3
        invariant
            k <= order@.len(),
            k <= 3,
            r@.len() == k,
            forall|k: int| 0 <= k < order@.len() ==> order@[k] < words@.len(),
            forall|m: int|
                0 <= m < k ==> (#[trigger] r@[m])@ == uppercase_of(words@[order@[m] as int]@),
        decreases 3 - k,
    {
        r.push(to_upper(words[order[k]].as_str()));
        k = k + 1;
    }
    r
}

/// Up to three words longer than ten characters that contain `trigram`, in upper
/// case, chosen at random without repetition.
pub fn get_example_words(map: &TrigramMap, trigram: &str, rng: &mut StdRng) -> (r: Vec<String>)
    requires
        map.wf(),
    ensures
        map.is_example_list(trigram@, r@),
{
    let key = to_upper(trigram);
    match map.get(&key) {
        Some(words) => {
            let ghost ws = strings_view(words@);
            let mut long: Vec<String> = Vec::new();
            let mut i: usize = 0;
            while i < words.len()
                invariant
                    i <= words@.len(),
                    ws == strings_view(words@),
                    strings_view(long@) == long_words(ws.subrange(0, i as int)),
                decreases words@.len() - i,
            {
                let ghost before = long@;
                assert(ws.subrange(0, i as int + 1).drop_last() == ws.subrange(0, i as int));
                if char_count(&words[i]) > 10 {
                    long.push(words[i].clone());
                    assert(strings_view(long@) == strings_view(before).push(words@[i as int]@));
                }
                i = i + 1;
            }
            assert(ws.subrange(0, ws.len() as int) == ws);
            if long.len() == 0 {
                assert(is_index_permutation(Seq::<usize>::empty(), 0));
                return Vec::new();
            }
            let order = shuffled_indices(rng, long.len());
            let r = select_examples(&long, &order);
            assert(forall|k: int|
                0 <= k < r@.len() ==> strings_view(long@)[order@[k] as int]
                    == long@[order@[k] as int]@);
            assert(is_index_permutation(order@, strings_view(long@).len()));
            r
        },
        None => {
            assert(is_index_permutation(Seq::<usize>::empty(), 0));
            Vec::new()
        },
    }
}

} // verus!
