//! The topic vocabulary and the test of a word against it.
use crate::dice::{dice_similar, is_dice_similar};
use crate::text::{chars_of, views};
use vstd::prelude::*;

verus! {

/// The reference terms that describe the topics of interest. Read-only once
/// built, so it can be shared freely between concurrent scorers.
pub struct Vocabulary {
    terms: Vec<Vec<char>>,
}

impl View for Vocabulary {
    type V = Seq<Seq<char>>;

    closed spec fn view(&self) -> Seq<Seq<char>> {
        views(self.terms@)
    }
}

/// The views of a sequence of strings.
pub open spec fn string_views(v: Seq<String>) -> Seq<Seq<char>> {
    v.map_values(|s: String| s@)
}

/// Whether `word` is close to some term of `vocab`: its Sørensen–Dice
/// coefficient against that term is at least 3/4.
pub open spec fn relevant(word: Seq<char>, vocab: Seq<Seq<char>>) -> bool {
    exists|i: int| 0 <= i < vocab.len() && dice_similar(#[trigger] vocab[i], word)
}

/// The built-in root words, in Spanish and English.
pub const ROOT_WORDS: [&'static str; 67] = [
    "Presidente", "Presidencial", "Gobierno", "Crisis", "Elección", "Elecciones", "Ley",
    "Ministro", "Economía", "Defensa", "Inflación", "Desempleo", "Reforma", "Diplomático",
    "Crisis", "Ataque", "Seguridad", "Migración", "Infección", "Hospital", "Tecnología",
    "Tecnológico", "Innovación", "Ciberseguridad", "Clima", "Energía", "Guerra", "Conflicto",
    "Policía", "Crimen", "Corrupción", "Arresto", "Caos", "Protesta", "President",
    "Presidential", "Government", "Crisis", "Election", "Law", "Minister", "Economy", "Defense",
    "Inflation", "Unemployment", "Reform", "Diplomatic", "Crisis", "Attack", "Security",
    "Migration", "Infection", "Hospital", "Technology", "Technologic", "Innovation",
    "Cybersecurity", "Climate", "Energy", "War", "Conflict", "Police", "Crime", "Corruption",
    "Arrest", "Chaos", "Protest",
];

/// The views of the built-in root words.
pub open spec fn root_word_views() -> Seq<Seq<char>> {
    ROOT_WORDS@.map_values(|w: &str| w@)
}

impl Vocabulary {
    /// A vocabulary made of exactly the given terms.
    pub fn from_words(words: &Vec<String>) -> (r: Vocabulary)
        ensures
            r@ == string_views(words@),
    {
        let mut terms: Vec<Vec<char>> = Vec::new();
        let mut i: usize = 0;
        while i < words.len()
            invariant
                i <= words@.len(),
                views(terms@) == string_views(words@).subrange(0, i as int),
            decreases words@.len() - i,
        {
            let ghost before = terms@;
            terms.push(chars_of(words[i].as_str()));
            assert(views(terms@) =~= views(before).push(words@[i as int]@));
            assert(string_views(words@).subrange(0, i + 1) =~= string_views(words@).subrange(
                0,
                i as int,
            ).push(words@[i as int]@));
            i += 1;
        }
        assert(string_views(words@).subrange(0, words@.len() as int) =~= string_views(words@));
        Vocabulary { terms }
    }

    /// The built-in root words followed by the given extra words.
    pub fn with_extra_words(extra: &Vec<String>) -> (r: Vocabulary)
        ensures
            r@ == root_word_views() + string_views(extra@),
    {
        let mut terms: Vec<Vec<char>> = Vec::new();
        let mut i: usize = 0;
        while i < 67
            invariant
                i <= 67,
                views(terms@) =~= root_word_views().subrange(0, i as int),
            decreases 67 - i,
        {
            let ghost before = views(terms@);
            terms.push(chars_of(ROOT_WORDS[i]));
            assert(views(terms@) =~= before.push(ROOT_WORDS@[i as int]@));
            i += 1;
        }
        let mut j: usize = 0;
        while j < extra.len()
            invariant
                j <= extra@.len(),
                views(terms@) =~= root_word_views() + string_views(extra@).subrange(0, j as int),
            decreases extra@.len() - j,
        {
            let ghost before = views(terms@);
            terms.push(chars_of(extra[j].as_str()));
            assert(views(terms@) =~= before.push(extra@[j as int]@));
            j += 1;
        }
        assert(string_views(extra@).subrange(0, extra@.len() as int) =~= string_views(extra@));
        Vocabulary { terms }
    }

    /// The built-in root words alone.
    pub fn new() -> (r: Vocabulary)
        ensures
            r@ == root_word_views(),
    {
        let none: Vec<String> = Vec::new();
        let r = Vocabulary::with_extra_words(&none);
        assert(string_views(none@) =~= Seq::<Seq<char>>::empty());
        assert(r@ =~= root_word_views());
        r
    }

    /// Number of terms.
    pub fn len(&self) -> (r: usize)
        ensures
            r == self@.len(),
    {
        self.terms.len()
    }
}

/// Whether `word` is close to some term of `vocab`. No case folding is done.
pub fn is_relevant_word(word: &Vec<char>, vocab: &Vocabulary) -> (r: bool)
    ensures
        r == relevant(word@, vocab@),
{
    let mut i: usize = 0;
    while i < vocab.terms.len()
        invariant
            i <= vocab@.len(),
            vocab@ == views(vocab.terms@),
            forall|j: int| 0 <= j < i ==> !dice_similar(#[trigger] vocab@[j], word@),
        decreases vocab@.len() - i,
    {
        if is_dice_similar(&vocab.terms[i], word) {
            assert(dice_similar(vocab@[i as int], word@));
            return true;
        }
        i += 1;
    }
    false
}

/// Whether the word `word` is close to some term of `vocab`.
pub fn similar_to_root_word(word: &str, vocab: &Vocabulary) -> (r: bool)
    ensures
        r == relevant(word@, vocab@),
{
    is_relevant_word(&chars_of(word), vocab)
}

} // verus!
