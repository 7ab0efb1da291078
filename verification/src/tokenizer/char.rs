//! One token per character, numbered in character order.
use std::collections::HashMap;

use vstd::prelude::*;

use crate::text;

verus! {

broadcast use vstd::std_specs::hash::group_hash_axioms;

/// What `char`'s `Debug` writes for a character.
pub uninterp spec fn char_debug_text(c: char) -> Seq<char>;

/// Calls `char`'s `Debug`: the character in single quotes, escaped where it has to be. Only this is
/// said of it: the same character always gives the same text.
#[verifier::external_body]
fn char_debug(c: char) -> (s: String)
    ensures
        s@ == char_debug_text(c),
{
    format!("{:?}", c)
}

/// Whether characters stand in increasing order, none twice.
pub open spec fn increasing(chars: Seq<char>) -> bool {
    forall|i: int, j: int| 0 <= i < j < chars.len() ==> #[trigger] chars[i] < #[trigger] chars[j]
}

/// Whether every character of a text is in the list.
pub open spec fn all_known(chars: Seq<char>, s: Seq<char>) -> bool {
    forall|i: int| 0 <= i < s.len() ==> chars.contains(#[trigger] s[i])
}

/// Whether `ids` name the characters of a text.
pub open spec fn ids_name(chars: Seq<char>, ids: Seq<usize>, s: Seq<char>) -> bool {
    &&& ids.len() == s.len()
    &&& forall|i: int|
        0 <= i < ids.len() ==> (#[trigger] ids[i]) < chars.len() && chars[ids[i] as int] == s[i]
}

/// The message about a character that is not in the list.
pub open spec fn unknown_character_text(c: char) -> Seq<char> {
    "unknown character: "@ + char_debug_text(c)
}

proof fn lemma_codes_differ(a: char, b: char)
    ensures
        a as u32 == b as u32 <==> a == b,
{
}

/// Whether a table holds the place of each character.
spec fn places_are(places: Map<u32, usize>, chars: Seq<char>) -> bool {
    &&& forall|i: int|
        0 <= i < chars.len() ==> #[trigger] places.dom().contains(chars[i] as u32)
            && places[chars[i] as u32] == i
    &&& forall|key: u32| #[trigger]
        places.dom().contains(key) ==> places[key] < chars.len() && chars[places[key] as int] as u32
            == key
}

/// A token for each character of a text.
pub struct CharTokenizer {
    char_to_id: HashMap<u32, usize>,
    id_to_char: Vec<char>,
}

impl CharTokenizer {
    #[verifier::type_invariant]
    spec fn places_follow_characters(self) -> bool {
        &&& increasing(self.id_to_char@)
        &&& places_are(self.char_to_id@, self.id_to_char@)
    }

    /// The characters, by id.
    pub closed spec fn chars(self) -> Seq<char> {
        self.id_to_char@
    }

    /// A tokenizer for the characters of a text, numbered in increasing order.
    pub fn from_text(text: &str) -> (tokenizer: CharTokenizer)
        ensures
            increasing(tokenizer.chars()),
            forall|c: char| #[trigger] tokenizer.chars().contains(c) <==> text@.contains(c),
    {
        let letters = text::to_chars(text);
        let mut sorted: Vec<char> = Vec::new();
        let mut i: usize = 0;
        while i < letters.len()
            invariant
                i <= letters@.len(),
                letters@ == text@,
                increasing(sorted@),
                forall|c: char| #[trigger]
                    sorted@.contains(c) <==> letters@.take(i as int).contains(c),
            decreases letters.len() - i,
        {
            let ghost before = sorted@;
            let ghost c = letters@[i as int];
            insert_sorted(&mut sorted, letters[i]);
            proof {
                let now = letters@.take(i as int + 1);
                let old_part = letters@.take(i as int);
                assert(now == old_part.push(c));
                assert forall|d: char| #[trigger] sorted@.contains(d) <==> now.contains(d) by {
                    if now.contains(d) {
                        let k = choose|k: int| 0 <= k < now.len() && now[k] == d;
                        if k < i {
                            assert(old_part[k] == d);
                            assert(old_part.contains(d));
                            assert(before.contains(d));
                        }
                    }
                    if sorted@.contains(d) && d != c {
                        assert(before.contains(d));
                        let k = choose|k: int| 0 <= k < old_part.len() && old_part[k] == d;
                        assert(now[k] == d);
                    }
                    if d == c {
                        assert(now[i as int] == c);
                    }
                }
            }
            i += 1;
        }
        assert(letters@.take(letters@.len() as int) == letters@);
        let char_to_id = places_of(&sorted);
        CharTokenizer { char_to_id, id_to_char: sorted }
    }

    /// The number of characters.
    pub fn vocab_size(&self) -> (n: usize)
        ensures
            n == self.chars().len(),
            increasing(self.chars()),
    {
        proof {
            use_type_invariant(self);
        }
        self.id_to_char.len()
    }

    fn id_of(&self, c: char) -> (id: Option<usize>)
        ensures
            match id {
                Some(n) => n < self.chars().len() && self.chars()[n as int] == c,
                None => !self.chars().contains(c),
            },
    {
        proof {
            use_type_invariant(self);
        }
        let key: u32 = c as u32;
        match self.char_to_id.get(&key) {
            Some(n) => {
                proof {
                    assert(self.char_to_id@.dom().contains(key));
                    lemma_codes_differ(self.chars()[*n as int], c);
                }
                Some(*n)
            },
            None => {
                proof {
                    if self.chars().contains(c) {
                        let i = choose|i: int| 0 <= i < self.chars().len() && self.chars()[i] == c;
                        assert(self.char_to_id@.dom().contains(self.id_to_char@[i] as u32));
                    }
                }
                None
            },
        }
    }

    /// The ids of a text of known characters.
    pub fn encode(&self, text: &str) -> (ids: Vec<usize>)
        requires
            all_known(self.chars(), text@),
        ensures
            increasing(self.chars()),
            ids_name(self.chars(), ids@, text@),
            forall|i: int| 0 <= i < text@.len() ==> self.chars()[#[trigger] ids@[i] as int] == text@[i],
    {
        proof {
            use_type_invariant(self);
        }
        let letters = text::to_chars(text);
        let mut ids: Vec<usize> = Vec::new();
        let mut i: usize = 0;
        while i < letters.len()
            invariant
                i <= letters@.len(),
                letters@ == text@,
                all_known(self.chars(), text@),
                ids_name(self.chars(), ids@, letters@.take(i as int)),
            decreases letters.len() - i,
        {
            let c = letters[i];
            assert(self.chars().contains(text@[i as int]));
            match self.id_of(c) {
                Some(id) => {
                    ids.push(id);
                },
                None => {},
            }
            i += 1;
        }
        assert(letters@.take(letters@.len() as int) == letters@);
        ids
    }

    /// The ids of a text, or a message about its first unknown character.
    pub fn try_encode(&self, text: &str) -> (r: Result<Vec<usize>, String>)
        ensures
            increasing(self.chars()),
            match r {
                Ok(ids) => all_known(self.chars(), text@) && ids_name(
                    self.chars(),
                    ids@,
                    text@,
                ),
                Err(message) => exists|i: int|
                    0 <= i < text@.len() && !self.chars().contains(#[trigger] text@[i])
                        && all_known(self.chars(), text@.take(i)) && message@
                        == unknown_character_text(text@[i]),
            },
    {
        proof {
            use_type_invariant(self);
        }
        let letters = text::to_chars(text);
        let mut ids: Vec<usize> = Vec::new();
        let mut i: usize = 0;
        while i < letters.len()
            invariant
                i <= letters@.len(),
                letters@ == text@,
                increasing(self.chars()),
                all_known(self.chars(), text@.take(i as int)),
                ids_name(self.chars(), ids@, text@.take(i as int)),
            decreases letters.len() - i,
        {
            let c = letters[i];
            match self.id_of(c) {
                Some(id) => {
                    ids.push(id);
                    proof {
                        let now = text@.take(i as int + 1);
                        assert forall|k: int| 0 <= k < now.len() implies self.chars().contains(
                            #[trigger] now[k],
                        ) by {
                            if k < i {
                                assert(text@.take(i as int)[k] == now[k]);
                            }
                        }
                    }
                },
                None => {
                    let mut message = "unknown character: ".to_owned();
                    message.append(char_debug(c).as_str());
                    assert(!self.chars().contains(text@[i as int]));
                    return Err(message);
                },
            }
            i += 1;
        }
        assert(text@.take(letters@.len() as int) == text@);
        Ok(ids)
    }

    /// The text of known ids.
    pub fn decode(&self, ids: &[usize]) -> (text: String)
        requires
            forall|i: int| 0 <= i < ids@.len() ==> (#[trigger] ids@[i]) < self.chars().len(),
        ensures
            increasing(self.chars()),
            ids_name(self.chars(), ids@, text@),
    {
        proof {
            use_type_invariant(self);
        }
        let mut s = String::new();
        let mut i: usize = 0;
        while i < ids.len()
            invariant
                i <= ids@.len(),
                forall|k: int| 0 <= k < ids@.len() ==> (#[trigger] ids@[k]) < self.chars().len(),
                ids_name(self.chars(), ids@.take(i as int), s@),
            decreases ids.len() - i,
        {
            s.push(self.id_to_char[ids[i]]);
            proof {
                let now = ids@.take(i as int + 1);
                assert forall|k: int| 0 <= k < now.len() implies (#[trigger] now[k])
                    < self.chars().len() && self.chars()[now[k] as int] == s@[k] by {
                    if k < i {
                        assert(ids@.take(i as int)[k] == now[k]);
                    }
                }
            }
            i += 1;
        }
        assert(ids@.take(ids@.len() as int) == ids@);
        s
    }
}

impl Clone for CharTokenizer {
    fn clone(&self) -> (copy: CharTokenizer)
        ensures
            copy.chars() == self.chars(),
            increasing(copy.chars()),
    {
        proof {
            use_type_invariant(self);
        }
        let id_to_char = text::slice_chars(self.id_to_char.as_slice(), 0, self.id_to_char.len());
        assert(id_to_char@ == self.id_to_char@);
        let char_to_id = places_of(&id_to_char);
        CharTokenizer { char_to_id, id_to_char }
    }
}

fn insert_sorted(sorted: &mut Vec<char>, c: char)
    requires
        increasing(old(sorted)@),
    ensures
        increasing(final(sorted)@),
        forall|d: char| #[trigger]
            final(sorted)@.contains(d) <==> (old(sorted)@.contains(d) || d == c),
{
    let ghost before = sorted@;
    let mut low: usize = 0;
    let mut high: usize = sorted.len();
    while low < high
        invariant
            low <= high <= sorted@.len(),
            sorted@ == before,
            increasing(before),
            forall|k: int| 0 <= k < low ==> #[trigger] before[k] < c,
            forall|k: int| high <= k < before.len() ==> c <= #[trigger] before[k],
        decreases high - low,
    {
        let middle: usize = low + (high - low) / 2;
        if sorted[middle] < c {
            low = middle + 1;
        } else {
            high = middle;
        }
    }
    if low < sorted.len() && sorted[low] == c {
        assert(before[low as int] == c);
        return;
    }
    sorted.insert(low, c);
    proof {
        let now = sorted@;
        assert(now == before.insert(low as int, c));
        assert forall|d: char| #[trigger] now.contains(d) <==> (before.contains(d) || d == c) by {
            if before.contains(d) {
                let k = choose|k: int| 0 <= k < before.len() && before[k] == d;
                if k < low {
                    assert(now[k] == d);
                } else {
                    assert(now[k + 1] == d);
                }
            }
            if d == c {
                assert(now[low as int] == d);
            }
            if now.contains(d) && d != c {
                let k = choose|k: int| 0 <= k < now.len() && now[k] == d;
                if k < low {
                    assert(before[k] == d);
                } else {
                    assert(before[k - 1] == d);
                }
            }
        }
    }
}

fn places_of(chars: &Vec<char>) -> (places: HashMap<u32, usize>)
    requires
        increasing(chars@),
    ensures
        places_are(places@, chars@),
{
    let mut places: HashMap<u32, usize> = HashMap::new();
    let mut i: usize = 0;
    while i < chars.len()
        invariant
            i <= chars@.len(),
            increasing(chars@),
            places_are(places@, chars@.take(i as int)),
        decreases chars.len() - i,
    {
        let key: u32 = chars[i] as u32;
        let ghost before = places@;
        places.insert(key, i);
        proof {
            let now = chars@.take(i as int + 1);
            let then = chars@.take(i as int);
            assert forall|k: int| 0 <= k < now.len() implies #[trigger] places@.dom().contains(
                now[k] as u32,
            ) && places@[now[k] as u32] == k by {
                if k < i {
                    assert(then[k] == now[k]);
                    assert(before.dom().contains(then[k] as u32));
                    assert(chars@[k] < chars@[i as int]);
                    lemma_codes_differ(chars@[k], chars@[i as int]);
                }
            }
            assert forall|other: u32| #[trigger] places@.dom().contains(other) implies places@[other]
                < now.len() && now[places@[other] as int] as u32 == other by {
                if other != key {
                    assert(before.dom().contains(other));
                    assert(then[before[other] as int] == now[before[other] as int]);
                }
            }
        }
        i += 1;
    }
    assert(chars@.take(chars@.len() as int) == chars@);
    places
}

proof fn lemma_places_unique(chars: Seq<char>, a: int, b: int)
    requires
        increasing(chars),
        0 <= a < chars.len(),
        0 <= b < chars.len(),
        chars[a] == chars[b],
    ensures
        a == b,
{
}

/// Ids name one text only: what encodes to given ids is what they decode to.
pub proof fn law_ids_name_one_text(chars: Seq<char>, ids: Seq<usize>, s: Seq<char>, t: Seq<char>)
    requires
        ids_name(chars, ids, s),
        ids_name(chars, ids, t),
    ensures
        s == t,
{
    assert forall|i: int| 0 <= i < s.len() implies s[i] == t[i] by {
        assert(ids[i] < chars.len());
    }
}

/// A text has one list of ids only: what decodes to a text is what it encodes to.
pub proof fn law_a_text_has_one_encoding(
    chars: Seq<char>,
    ids: Seq<usize>,
    others: Seq<usize>,
    s: Seq<char>,
)
    requires
        increasing(chars),
        ids_name(chars, ids, s),
        ids_name(chars, others, s),
    ensures
        ids == others,
{
    assert forall|i: int| 0 <= i < ids.len() implies ids[i] == others[i] by {
        assert(ids[i] < chars.len() && others[i] < chars.len());
        lemma_places_unique(chars, ids[i] as int, others[i] as int);
    }
}

/// Ids name a text character by character, from its start to its end.
pub proof fn law_ids_name_characters_in_order(
    chars: Seq<char>,
    ids: Seq<usize>,
    s: Seq<char>,
    i: int,
)
    requires
        ids_name(chars, ids, s),
    ensures
        ids.len() == s.len(),
        0 <= i < s.len() ==> ids[i] < chars.len() && chars[ids[i] as int] == s[i],
{
}

/// Characters are numbered in the order of their code points, from zero on and without gaps.
pub proof fn law_characters_are_numbered_in_order(
    chars: Seq<char>,
    ids: Seq<usize>,
    s: Seq<char>,
    i: int,
    j: int,
)
    requires
        increasing(chars),
        ids_name(chars, ids, s),
        0 <= i < s.len(),
        0 <= j < s.len(),
    ensures
        s[i] < s[j] <==> ids[i] < ids[j],
        s[i] == s[j] <==> ids[i] == ids[j],
        ids[i] < chars.len(),
{
    assert(chars[ids[i] as int] == s[i]);
    assert(chars[ids[j] as int] == s[j]);
    if ids[i] < ids[j] {
        assert(chars[ids[i] as int] < chars[ids[j] as int]);
    }
    if ids[j] < ids[i] {
        assert(chars[ids[j] as int] < chars[ids[i] as int]);
    }
}

} // verus!
