//! Whole token sequences: which of their tokens are durations and what those
//! are made of.
use crate::grammar::{
    all_digits, all_letters, decimal_value, numeral_of, split, suffix_of, value_of,
};
use crate::token::{classify, lemma_duration_iff, lemma_duration_parts, token_of, Token};
use crate::units::{code_of, lemma_code_names_its_unit, normalise_unit, unit_of};
use vstd::prelude::*;

verus! {

/// The texts of a sequence of strings, in order.
pub open spec fn texts(strings: Seq<String>) -> Seq<Seq<char>> {
    strings.map_values(|s: String| s@)
}

/// Whether a text is a duration: a numeral that fits in 64 bits, bare or
/// directly followed by letters. A flag, letters with no digit before them
/// and every other invalid text are none.
pub open spec fn is_duration(token: Seq<char>) -> bool {
    token_of(token).value() is Some
}

/// The letters of a duration as an entry of their own; a bare numeral has no
/// letters and leaves no entry.
pub open spec fn entry(letters: Seq<char>) -> Seq<Seq<char>> {
    if letters.len() > 0 {
        seq![letters]
    } else {
        Seq::empty()
    }
}

/// What one token contributes: a duration gives its numeral, as it was
/// written, and then its letters where it has any. Any other token, letters
/// alone among them, contributes nothing.
pub open spec fn pieces(token: Seq<char>) -> Seq<Seq<char>> {
    if is_duration(token) {
        seq![numeral_of(token)] + entry(suffix_of(token))
    } else {
        Seq::empty()
    }
}

/// The pieces of all tokens, in order.
pub open spec fn components_of(tokens: Seq<Seq<char>>) -> Seq<Seq<char>> {
    tokens.map_values(|token: Seq<char>| pieces(token)).flatten()
}

/// The value of an entry that is a numeral of at most 32 bits.
pub open spec fn small_value_of(entry: Seq<char>) -> Option<u32> {
    match value_of(entry) {
        Some(value) => if value <= u32::MAX {
            Some(value as u32)
        } else {
            None
        },
        None => None,
    }
}

/// Parsed entries sorted by kind: the numbers, and the codes of the units.
#[derive(Debug, PartialEq, Eq)]
pub struct Components {
    /// The values of the numerals, in order.
    pub values: Vec<u32>,
    /// The codes of the units, in order.
    pub units: Vec<String>,
}

/// Pushing a string onto a sequence pushes its text onto the texts.
proof fn lemma_texts_push(strings: Seq<String>, last: String)
    ensures
        texts(strings.push(last)) == texts(strings).push(last@),
{
    assert(texts(strings.push(last)) =~= texts(strings).push(last@));
}

/// The texts of the first `i + 1` strings are those of the first `i`, and
/// then the text of the next one.
proof fn lemma_texts_take(strings: Seq<String>, i: int)
    requires
        0 <= i < strings.len(),
    ensures
        texts(strings).take(i + 1) == texts(strings).take(i).push(strings[i]@),
{
    assert(texts(strings).take(i + 1) =~= texts(strings).take(i).push(strings[i]@));
}

/// The components of a sequence are those of its beginning followed by those
/// of its rest.
pub proof fn lemma_components_concat(first: Seq<Seq<char>>, second: Seq<Seq<char>>)
    ensures
        components_of(first + second) == components_of(first) + components_of(second),
{
    let cut = |token: Seq<char>| pieces(token);
    assert((first + second).map_values(cut) =~= first.map_values(cut) + second.map_values(cut));
    vstd::seq_lib::lemma_flatten_concat(first.map_values(cut), second.map_values(cut));
}

/// Every component is a part of a duration: it is not empty, and it is made
/// of digits alone or of letters alone.
pub proof fn lemma_components_are_parts(tokens: Seq<Seq<char>>, i: int)
    requires
        0 <= i < components_of(tokens).len(),
    ensures
        components_of(tokens)[i].len() > 0,
        all_digits(components_of(tokens)[i]) || all_letters(components_of(tokens)[i]),
    decreases tokens.len(),
{
    let cut = |token: Seq<char>| pieces(token);
    if tokens.len() > 0 {
        let front = tokens.drop_last();
        let last = tokens.last();
        assert(tokens =~= front.push(last));
        assert(front.push(last).map_values(cut) =~= front.map_values(cut).push(pieces(last)));
        front.map_values(cut).lemma_flatten_push(pieces(last));
        if i < components_of(front).len() {
            lemma_components_are_parts(front, i);
        } else {
            lemma_duration_parts(last);
        }
    }
}

/// Normalising is idempotent: the codes of a sequence of entries are their
/// own codes.
pub proof fn lemma_codes_are_normal(entries: Seq<Seq<char>>)
    ensures
        entries.filter_map(|spelling: Seq<char>| code_of(spelling)).filter_map(
            |spelling: Seq<char>| code_of(spelling),
        ) == entries.filter_map(|spelling: Seq<char>| code_of(spelling)),
    decreases entries.len(),
{
    let code = |spelling: Seq<char>| code_of(spelling);
    if entries.len() > 0 {
        let front = entries.drop_last();
        lemma_codes_are_normal(front);
        match unit_of(entries.last()) {
            Some(unit) => {
                let codes = front.filter_map(code).push(unit.code_text());
                lemma_code_names_its_unit(unit);
                assert(entries.filter_map(code) =~= codes);
                assert(codes.drop_last() =~= front.filter_map(code));
                assert(codes.filter_map(code) =~= codes);
            },
            None => {},
        }
    }
}

/// Only durations have components: the durations of a sequence, taken
/// alone, have the components of the whole sequence.
pub proof fn lemma_components_of_durations(tokens: Seq<Seq<char>>)
    ensures
        components_of(tokens.filter(|token: Seq<char>| is_duration(token))) == components_of(
            tokens,
        ),
    decreases tokens.len(),
{
    let wanted = |token: Seq<char>| is_duration(token);
    let cut = |token: Seq<char>| pieces(token);
    if tokens.len() == 0 {
        tokens.lemma_filter_len(wanted);
        assert(tokens.filter(wanted) =~= tokens);
    } else {
        let front = tokens.drop_last();
        let last = tokens.last();
        lemma_components_of_durations(front);
        assert(tokens =~= front.push(last));
        front.lemma_filter_push(last, wanted);
        assert(front.push(last).map_values(cut) =~= front.map_values(cut).push(pieces(last)));
        front.map_values(cut).lemma_flatten_push(pieces(last));
        if is_duration(last) {
            let kept = front.filter(wanted);
            assert(kept.push(last).map_values(cut) =~= kept.map_values(cut).push(pieces(last)));
            kept.map_values(cut).lemma_flatten_push(pieces(last));
        } else {
            assert(components_of(front) + pieces(last) =~= components_of(front));
        }
    }
}

/// Cuts every duration into its numeral and its letters.
///
/// The result holds the parts in order: `10sec` gives `10` and `sec`, `12`
/// gives `12`. A token that is no duration gives nothing: a flag, the empty
/// text, letters alone such as `milli`, a numeral too large for 64 bits, and
/// whatever else is invalid.
pub fn parse(text: Vec<String>) -> (entries: Vec<String>)
    ensures
        texts(entries@) == components_of(texts(text@)),
{
    let mut entries: Vec<String> = Vec::new();
    let mut i: usize = 0;
    assert(texts(text@).take(0) =~= Seq::empty());
    assert(texts(entries@) =~= Seq::empty());
    while i < text.len()
        invariant
            i <= text@.len(),
            texts(entries@) == components_of(texts(text@).take(i as int)),
        decreases text@.len() - i,
    {
        let ghost before = texts(text@).take(i as int);
        let ghost token = text@[i as int]@;
        proof {
            lemma_texts_take(text@, i as int);
            let cut = |t: Seq<char>| pieces(t);
            assert(before.push(token).map_values(cut) =~= before.map_values(cut).push(
                pieces(token),
            ));
            before.map_values(cut).lemma_flatten_push(pieces(token));
            lemma_duration_iff(token);
        }
        match split(text[i].as_str()) {
            None => {},
            Some((numeral, letters)) => {
                if decimal_value(numeral.as_str()).is_some() {
                    proof {
                        lemma_texts_push(entries@, numeral);
                    }
                    entries.push(numeral);
                    if !letters.as_str().is_empty() {
                        proof {
                            lemma_texts_push(entries@, letters);
                        }
                        entries.push(letters);
                    }
                }
            },
        }
        assert(texts(entries@) =~= components_of(before) + pieces(token));
        i = i + 1;
    }
    assert(texts(text@).take(text@.len() as int) =~= texts(text@));
    entries
}

/// Keeps the tokens that are durations, in order, each as it was given.
pub fn durations(text: Vec<String>) -> (kept: Vec<String>)
    ensures
        texts(kept@) == texts(text@).filter(|token: Seq<char>| is_duration(token)),
{
    let mut kept: Vec<String> = Vec::new();
    let mut i: usize = 0;
    let ghost wanted = |token: Seq<char>| is_duration(token);
    assert(texts(text@).take(0) =~= Seq::empty());
    assert(texts(kept@) =~= Seq::empty());
    proof {
        Seq::<Seq<char>>::empty().lemma_filter_len(wanted);
    }
    assert(Seq::<Seq<char>>::empty().filter(wanted) =~= Seq::empty());
    while i < text.len()
        invariant
            i <= text@.len(),
            wanted == |token: Seq<char>| is_duration(token),
            texts(kept@) == texts(text@).take(i as int).filter(wanted),
        decreases text@.len() - i,
    {
        proof {
            lemma_texts_take(text@, i as int);
            texts(text@).take(i as int).lemma_filter_push(text@[i as int]@, wanted);
        }
        let class = classify(text[i].as_str());
        let keep = match class {
            Token::Numeral(_) => true,
            Token::CompoundDuration(_, _) => true,
            _ => false,
        };
        if keep {
            let token = text[i].clone();
            proof {
                lemma_texts_push(kept@, token);
            }
            kept.push(token);
        }
        i = i + 1;
    }
    assert(texts(text@).take(text@.len() as int) =~= texts(text@));
    kept
}

/// Maps every entry that spells a unit to the unit's code and drops every
/// other entry. The codes keep the order of the entries.
pub fn normalise_units(entries: Vec<String>) -> (codes: Vec<String>)
    ensures
        texts(codes@) == texts(entries@).filter_map(|spelling: Seq<char>| code_of(spelling)),
{
    let mut codes: Vec<String> = Vec::new();
    let mut i: usize = 0;
    let ghost code = |spelling: Seq<char>| code_of(spelling);
    assert(texts(entries@).take(0) =~= Seq::empty());
    assert(texts(codes@) =~= Seq::empty());
    while i < entries.len()
        invariant
            i <= entries@.len(),
            code == |spelling: Seq<char>| code_of(spelling),
            texts(codes@) == texts(entries@).take(i as int).filter_map(code),
        decreases entries@.len() - i,
    {
        proof {
            texts(entries@).lemma_filter_map_take_succ(code, i as int);
        }
        match normalise_unit(entries[i].as_str()) {
            None => {},
            Some(unit) => {
                let text = unit.code().to_owned();
                proof {
                    lemma_texts_push(codes@, text);
                }
                codes.push(text);
            },
        }
        i = i + 1;
    }
    assert(texts(entries@).take(entries@.len() as int) =~= texts(entries@));
    codes
}

impl Components {
    /// Sorts entries by kind.
    ///
    /// Every numeral that fits in 32 bits gives its value, every spelling of a
    /// unit gives the unit's code, and any other entry is dropped. Dropping an
    /// entry of one kind leaves the entries of the other kind as they are.
    pub fn from_entries(entries: Vec<String>) -> (sorted: Components)
        ensures
            sorted.values@ == texts(entries@).filter_map(
                |entry: Seq<char>| small_value_of(entry),
            ),
            texts(sorted.units@) == texts(entries@).filter_map(
                |spelling: Seq<char>| code_of(spelling),
            ),
    {
        let mut values: Vec<u32> = Vec::new();
        let mut i: usize = 0;
        let ghost small = |entry: Seq<char>| small_value_of(entry);
        assert(texts(entries@).take(0) =~= Seq::empty());
        while i < entries.len()
            invariant
                i <= entries@.len(),
                small == |entry: Seq<char>| small_value_of(entry),
                values@ == texts(entries@).take(i as int).filter_map(small),
            decreases entries@.len() - i,
        {
            proof {
                texts(entries@).lemma_filter_map_take_succ(small, i as int);
            }
            match decimal_value(entries[i].as_str()) {
                None => {},
                Some(value) => {
                    if value <= u32::MAX as u64 {
                        values.push(value as u32);
                    }
                },
            }
            i = i + 1;
        }
        assert(texts(entries@).take(entries@.len() as int) =~= texts(entries@));
        let units = normalise_units(entries);
        Components { values, units }
    }
}

} // verus!
