//! Tokenizers: characters and byte pairs.
use vstd::prelude::*;

use bpe::{BpeTokenizer, Merge};
use char::CharTokenizer;

pub mod bpe;
pub mod bpe_laws;
pub mod char;

verus! {

/// Turns text into token ids and back.
pub trait Tokenizer {
    /// The ids of a text.
    spec fn encoding(&self, text: Seq<char>) -> Seq<u32>;

    /// The text of ids.
    spec fn decoding(&self, ids: Seq<u32>) -> Seq<char>;

    /// The number of tokens.
    spec fn size(&self) -> nat;

    fn encode(&self, text: &str) -> (ids: Vec<u32>)
        ensures
            ids@ == self.encoding(text@),
    ;

    fn decode(&self, ids: &[u32]) -> (text: String)
        ensures
            text@ == self.decoding(ids@),
    ;

    fn vocab_size(&self) -> (n: usize)
        ensures
            n == self.size(),
    ;
}

/// The tokenizer of a run.
pub enum RuntimeTokenizer {
    Char(CharTokenizer),
    Bpe(BpeTokenizer),
}

/// Token ids in the width of an index.
pub open spec fn widened(ids: Seq<u32>) -> Seq<usize> {
    Seq::new(ids.len(), |i: int| ids[i] as usize)
}

/// Token ids in the width of a token.
pub open spec fn narrowed(ids: Seq<usize>) -> Seq<u32> {
    Seq::new(ids.len(), |i: int| ids[i] as u32)
}

impl RuntimeTokenizer {
    /// The number of tokens.
    pub open spec fn size(self) -> nat {
        match self {
            RuntimeTokenizer::Char(t) => t.chars().len(),
            RuntimeTokenizer::Bpe(t) => t.pieces().len(),
        }
    }

    /// Whether the characters of a character tokenizer stand in increasing order, each once.
    pub open spec fn is_ordered(self) -> bool {
        self matches RuntimeTokenizer::Char(t) ==> char::increasing(t.chars())
    }

    /// Whether a text can be encoded. Byte pairs can encode any.
    pub open spec fn can_encode(self, s: Seq<char>) -> bool {
        match self {
            RuntimeTokenizer::Char(t) => char::all_known(t.chars(), s),
            RuntimeTokenizer::Bpe(_) => true,
        }
    }

    /// Whether `ids` are the encoding of a text.
    pub open spec fn encodes(self, s: Seq<char>, ids: Seq<usize>) -> bool {
        match self {
            RuntimeTokenizer::Char(t) => char::ids_name(t.chars(), ids, s),
            RuntimeTokenizer::Bpe(t) => ids == widened(t.encoding(s)),
        }
    }

    /// Whether a message names the first character of a text that is not known.
    pub open spec fn names_first_unknown(self, s: Seq<char>, message: Seq<char>) -> bool {
        self matches RuntimeTokenizer::Char(t) && exists|i: int|
            0 <= i < s.len() && !t.chars().contains(#[trigger] s[i]) && char::all_known(
                t.chars(),
                s.take(i),
            ) && message == char::unknown_character_text(s[i])
    }

    /// Whether `s` is the text of `ids`.
    pub open spec fn decodes(self, ids: Seq<usize>, s: Seq<char>) -> bool {
        match self {
            RuntimeTokenizer::Char(t) => char::ids_name(t.chars(), ids, s),
            RuntimeTokenizer::Bpe(t) => s == t.decoding(narrowed(ids)),
        }
    }

    /// A tokenizer for the characters of a text.
    pub fn char_from_text(text: &str) -> (tokenizer: RuntimeTokenizer)
        ensures
            tokenizer matches RuntimeTokenizer::Char(t) && char::increasing(t.chars()) && forall|
                c: char,
            | #[trigger] t.chars().contains(c) <==> text@.contains(c),
    {
        RuntimeTokenizer::Char(CharTokenizer::from_text(text))
    }

    /// A byte pair tokenizer of the merges and the token bytes that were read from its file.
    pub fn load_bpe(merges: Vec<Merge>, vocab: Vec<Vec<u8>>) -> (tokenizer: RuntimeTokenizer)
        requires
            merges@.len() <= 0x1_0000_0000,
        ensures
            tokenizer matches RuntimeTokenizer::Bpe(t) && t.merge_list() == merges@ && t.pieces()
                == bpe::byte_views(vocab@),
    {
        RuntimeTokenizer::Bpe(BpeTokenizer::from_parts(merges, vocab))
    }

    /// The number of tokens.
    pub fn vocab_size(&self) -> (n: usize)
        ensures
            n == self.size(),
    {
        match self {
            RuntimeTokenizer::Char(t) => t.vocab_size(),
            RuntimeTokenizer::Bpe(t) => t.vocab_size(),
        }
    }

    /// `char` or `bpe`.
    pub fn kind(&self) -> (s: &'static str)
        ensures
            s@ == (match *self {
                RuntimeTokenizer::Char(_) => "char"@,
                RuntimeTokenizer::Bpe(_) => "bpe"@,
            }),
    {
        match self {
            RuntimeTokenizer::Char(_) => "char",
            RuntimeTokenizer::Bpe(_) => "bpe",
        }
    }

    /// The ids of a text that can be encoded.
    pub fn encode(&self, text: &str) -> (ids: Vec<usize>)
        requires
            self.can_encode(text@),
        ensures
            self.is_ordered(),
            self.encodes(text@, ids@),
    {
        match self {
            RuntimeTokenizer::Char(t) => t.encode(text),
            RuntimeTokenizer::Bpe(t) => {
                let narrow = t.encode(text);
                let mut ids: Vec<usize> = Vec::new();
                let mut i: usize = 0;
                while i < narrow.len()
                    invariant
                        i <= narrow@.len(),
                        ids@ == widened(narrow@).take(i as int),
                    decreases narrow.len() - i,
                {
                    ids.push(narrow[i] as usize);
                    assert(ids@ == widened(narrow@).take(i as int + 1));
                    i += 1;
                }
                assert(widened(narrow@).take(i as int) == widened(narrow@));
                ids
            },
        }
    }

    /// The ids of a text, or a message about its first unknown character.
    pub fn try_encode(&self, text: &str) -> (r: Result<Vec<usize>, String>)
        ensures
            self.is_ordered(),
            match r {
                Ok(ids) => self.can_encode(text@) && self.encodes(text@, ids@),
                Err(message) => !self.can_encode(text@) && self.names_first_unknown(
                    text@,
                    message@,
                ),
            },
    {
        match self {
            RuntimeTokenizer::Char(t) => t.try_encode(text),
            RuntimeTokenizer::Bpe(_) => Ok(self.encode(text)),
        }
    }

    /// The text of ids. Character ids have to be known; byte pair ids that are not known are
    /// passed over.
    pub fn decode(&self, ids: &[usize]) -> (text: String)
        requires
            *self matches RuntimeTokenizer::Char(t) ==> forall|i: int|
                0 <= i < ids@.len() ==> (#[trigger] ids@[i]) < t.chars().len(),
        ensures
            self.is_ordered(),
            self.decodes(ids@, text@),
    {
        match self {
            RuntimeTokenizer::Char(t) => t.decode(ids),
            RuntimeTokenizer::Bpe(t) => {
                let mut narrow: Vec<u32> = Vec::new();
                let mut i: usize = 0;
                while i < ids.len()
                    invariant
                        i <= ids@.len(),
                        narrow@ == narrowed(ids@).take(i as int),
                    decreases ids.len() - i,
                {
                    narrow.push(ids[i] as u32);
                    assert(narrow@ == narrowed(ids@).take(i as int + 1));
                    i += 1;
                }
                assert(narrowed(ids@).take(i as int) == narrowed(ids@));
                t.decode(narrow.as_slice())
            },
        }
    }
}

impl Clone for RuntimeTokenizer {
    fn clone(&self) -> (copy: RuntimeTokenizer)
        ensures
            match (*self, copy) {
                (RuntimeTokenizer::Char(a), RuntimeTokenizer::Char(b)) => a.chars() == b.chars(),
                (RuntimeTokenizer::Bpe(a), RuntimeTokenizer::Bpe(b)) => a.merge_list()
                    == b.merge_list() && a.pieces() == b.pieces(),
                _ => false,
            },
    {
        match self {
            RuntimeTokenizer::Char(t) => RuntimeTokenizer::Char(t.clone()),
            RuntimeTokenizer::Bpe(t) => RuntimeTokenizer::Bpe(t.clone()),
        }
    }
}

/// A text has one encoding: any two lists of ids that encode it are the same.
pub proof fn law_one_encoding(
    tokenizer: RuntimeTokenizer,
    s: Seq<char>,
    a: Seq<usize>,
    b: Seq<usize>,
)
    requires
        tokenizer.is_ordered(),
        tokenizer.encodes(s, a),
        tokenizer.encodes(s, b),
    ensures
        a == b,
{
    if let RuntimeTokenizer::Char(t) = tokenizer {
        char::law_a_text_has_one_encoding(t.chars(), a, b, s);
    }
}

/// What is encoded and decoded again comes out as the text without its whitespace, for a byte
/// pair tokenizer with a coherent vocabulary, and as the text itself for a
/// character tokenizer.
pub proof fn law_decode_of_encode(
    tokenizer: RuntimeTokenizer,
    s: Seq<char>,
    ids: Seq<usize>,
    t: Seq<char>,
)
    requires
        tokenizer.encodes(s, ids),
        tokenizer.decodes(ids, t),
        tokenizer matches RuntimeTokenizer::Bpe(b) ==> bpe::coherent(b.merge_list(), b.pieces()),
    ensures
        match tokenizer {
            RuntimeTokenizer::Char(_) => t == s,
            RuntimeTokenizer::Bpe(_) => t == bpe::without_spaces(s),
        },
{
    match tokenizer {
        RuntimeTokenizer::Char(c) => {
            char::law_ids_name_one_text(c.chars(), ids, s, t);
        },
        RuntimeTokenizer::Bpe(b) => {
            let narrow = b.encoding(s);
            assert(narrowed(widened(narrow)) == narrow) by {
                assert forall|i: int| 0 <= i < narrow.len() implies narrowed(widened(narrow))[i]
                    == narrow[i] by {}
            }
            bpe::law_decoding_gives_back_the_words(b.merge_list(), b.pieces(), s);
        },
    }
}

/// A tokenizer that is loaded from the merges and the token bytes that another one saved is a byte
/// pair tokenizer of the same size, which encodes every text and decodes all ids as that one does.
/// Where the saved one was trained, what is encoded and decoded again comes out without its
/// whitespace.
pub proof fn law_loaded_is_what_was_saved(
    saved: BpeTokenizer,
    loaded: RuntimeTokenizer,
    s: Seq<char>,
    ids: Seq<usize>,
    t: Seq<char>,
)
    requires
        loaded matches RuntimeTokenizer::Bpe(b) && b.merge_list() == saved.merge_list()
            && b.pieces() == saved.pieces(),
    ensures
        loaded is Bpe,
        loaded.size() == saved.size(),
        loaded.can_encode(s),
        loaded.encodes(s, ids) <==> ids == widened(saved.encoding(s)),
        loaded.decodes(ids, t) <==> t == saved.decoding(narrowed(ids)),
        forall|corpus: Seq<char>, target: int, reason: bpe::BpeTrainingStopReason|
            #[trigger] bpe::is_training_run(
                bpe::text_words(corpus),
                target,
                saved.merge_list(),
                reason,
            ) && saved.pieces() == bpe::vocab_after(saved.merge_list()) && loaded.encodes(s, ids)
                && loaded.decodes(ids, t) ==> t == bpe::without_spaces(s),
{
    assert forall|corpus: Seq<char>, target: int, reason: bpe::BpeTrainingStopReason|
        #[trigger] bpe::is_training_run(
            bpe::text_words(corpus),
            target,
            saved.merge_list(),
            reason,
        ) && saved.pieces() == bpe::vocab_after(saved.merge_list()) && loaded.encodes(s, ids)
            && loaded.decodes(ids, t) implies t == bpe::without_spaces(s) by {
        bpe::law_training_makes_coherent_vocabularies(
            corpus,
            target,
            saved.merge_list(),
            reason,
        );
        law_decode_of_encode(loaded, s, ids, t);
    }
}

/// The ids of a run are the ids of its tokenizer, one by one, in both widths.
pub proof fn law_widths_keep_the_ids(ids: Seq<u32>, wide: Seq<usize>, i: int)
    ensures
        widened(ids).len() == ids.len(),
        0 <= i < ids.len() ==> widened(ids)[i] == ids[i],
        narrowed(widened(ids)) == ids,
        (forall|k: int| 0 <= k < wide.len() ==> #[trigger] wide[k] <= u32::MAX) ==> widened(
            narrowed(wide),
        ) == wide,
{
}

/// A text that cannot be encoded is explained by its first unknown character: there is only one,
/// and what can be encoded has none.
pub proof fn law_one_unknown_character_is_told(
    tokenizer: RuntimeTokenizer,
    s: Seq<char>,
    a: Seq<char>,
    b: Seq<char>,
)
    ensures
        tokenizer.names_first_unknown(s, a) && tokenizer.names_first_unknown(s, b) ==> a == b,
        tokenizer.names_first_unknown(s, a) ==> !tokenizer.can_encode(s),
        tokenizer is Bpe ==> tokenizer.can_encode(s) && !tokenizer.names_first_unknown(s, a),
{
    if tokenizer.names_first_unknown(s, a) && tokenizer.names_first_unknown(s, b) {
        let t = tokenizer->Char_0;
        let i = choose|i: int|
            0 <= i < s.len() && !t.chars().contains(#[trigger] s[i]) && char::all_known(
                t.chars(),
                s.take(i),
            ) && a == char::unknown_character_text(s[i]);
        let j = choose|j: int|
            0 <= j < s.len() && !t.chars().contains(#[trigger] s[j]) && char::all_known(
                t.chars(),
                s.take(j),
            ) && b == char::unknown_character_text(s[j]);
        if i < j {
            assert(s.take(j)[i] == s[i]);
        }
        if j < i {
            assert(s.take(i)[j] == s[j]);
        }
    }
}

} // verus!
