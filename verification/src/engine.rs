//! The timer's configuration and how a token sequence resolves to it.
//!
//! Resolution is a left fold: the configuration starts out empty and every
//! token, taken in order, acts on it. The flags are sticky. Among the numerals
//! the last one above zero gives the count.
use crate::grammar::{base_ten, numeral_text};
use crate::parser::{is_duration, texts};
use crate::timer::Timer;
use crate::token::{classify, token_of, Issue, Token, TokenView};
use vstd::prelude::*;

verus! {

/// The configuration of one run: how long to count, in which unit, and
/// whether to keep quiet about it.
#[derive(Clone, Copy, Debug, PartialEq, Eq, Structural)]
pub struct Tima {
    /// The count, in seconds or in minutes.
    pub max_count: u64,
    /// Whether the count is in minutes.
    pub minutes: bool,
    /// Whether the run is silent.
    pub quiet_mode: bool,
}

impl Default for Tima {
    fn default() -> (tmr: Tima)
        ensures
            tmr == Tima::initial(),
    {
        Tima::new()
    }
}

impl Tima {
    /// The configuration that nothing has acted on: no count, no flag.
    pub open spec fn initial() -> Tima {
        Tima { max_count: 0, minutes: false, quiet_mode: false }
    }

    /// What one token makes of a configuration.
    ///
    /// A flag sets its field and leaves the others. A numeral above zero,
    /// bare or in a compound, replaces the count. A numeral of zero and an
    /// invalid token change nothing.
    pub open spec fn step(self, token: TokenView) -> Tima {
        match token {
            TokenView::MinutesFlag => Tima { minutes: true, ..self },
            TokenView::QuietFlag => Tima { quiet_mode: true, ..self },
            TokenView::Numeral(value) => if value > 0 {
                Tima { max_count: value, ..self }
            } else {
                self
            },
            TokenView::CompoundDuration(value, _) => if value > 0 {
                Tima { max_count: value, ..self }
            } else {
                self
            },
            TokenView::Invalid => self,
        }
    }

    /// The configuration that a token sequence resolves to: the tokens act in
    /// order on the initial configuration.
    pub open spec fn resolve(tokens: Seq<Seq<char>>) -> Tima
        decreases tokens.len(),
    {
        if tokens.len() == 0 {
            Tima::initial()
        } else {
            Tima::resolve(tokens.drop_last()).step(token_of(tokens.last()))
        }
    }

    /// What two configurations make when the second was resolved after the
    /// first: a flag holds if it holds in either, and the count is the later
    /// one unless that is zero.
    pub open spec fn merged(self, later: Tima) -> Tima {
        Tima {
            max_count: if later.max_count > 0 {
                later.max_count
            } else {
                self.max_count
            },
            minutes: self.minutes || later.minutes,
            quiet_mode: self.quiet_mode || later.quiet_mode,
        }
    }

    /// The length of the run in seconds: that of its countdown.
    pub open spec fn seconds(self) -> nat {
        Timer::of(self).seconds()
    }

    /// The word for the unit of the count.
    pub open spec fn unit_word(self) -> Seq<char> {
        if self.minutes {
            "minutes"@
        } else {
            "seconds"@
        }
    }

    /// The line that announces the run under a heading: the heading, a colon,
    /// the count and the word for its unit.
    pub open spec fn line(self, heading: Seq<char>) -> Seq<char> {
        heading + ": "@ + base_ten(self.max_count as nat) + " "@ + self.unit_word()
    }

    /// The initial configuration.
    pub fn new() -> (tmr: Tima)
        ensures
            tmr == Tima::initial(),
    {
        Tima { max_count: 0, minutes: false, quiet_mode: false }
    }

    /// Lets one token act on the configuration.
    pub fn apply(self, token: &Token) -> (next: Tima)
        ensures
            next == self.step(token@),
    {
        match token {
            Token::MinutesFlag => Tima { minutes: true, ..self },
            Token::QuietFlag => Tima { quiet_mode: true, ..self },
            Token::Numeral(value) => if *value > 0 {
                Tima { max_count: *value, ..self }
            } else {
                self
            },
            Token::CompoundDuration(value, _) => if *value > 0 {
                Tima { max_count: *value, ..self }
            } else {
                self
            },
            Token::Invalid => self,
        }
    }

    /// Combines the configuration with one that was resolved after it.
    pub fn merge(self, later: Tima) -> (both: Tima)
        ensures
            both == self.merged(later),
    {
        Tima {
            max_count: if later.max_count > 0 {
                later.max_count
            } else {
                self.max_count
            },
            minutes: self.minutes || later.minutes,
            quiet_mode: self.quiet_mode || later.quiet_mode,
        }
    }

    /// Resolves the arguments of a run.
    ///
    /// Every sequence resolves: what is not understood is passed over, and
    /// with nothing understood the result is the initial configuration.
    pub fn init(args: Vec<String>) -> (tmr: Tima)
        ensures
            tmr == Tima::resolve(texts(args@)),
    {
        let mut tmr = Tima::new();
        let mut i: usize = 0;
        assert(texts(args@).take(0) =~= Seq::empty());
        while i < args.len()
            invariant
                i <= args@.len(),
                tmr == Tima::resolve(texts(args@).take(i as int)),
            decreases args@.len() - i,
        {
            let token = classify(args[i].as_str());
            proof {
                let seen = texts(args@).take(i + 1);
                assert(seen.drop_last() =~= texts(args@).take(i as int));
                assert(seen.last() == args@[i as int]@);
            }
            tmr = tmr.apply(&token);
            i = i + 1;
        }
        assert(texts(args@).take(args@.len() as int) =~= texts(args@));
        tmr
    }

    /// What to announce under a heading: a line in every run but a quiet
    /// one, which announces nothing.
    pub fn verbose(&self, heading: &str) -> (said: Option<String>)
        ensures
            said is Some <==> !self.quiet_mode,
            said matches Some(line) ==> line@ == self.line(heading@),
    {
        if self.quiet_mode {
            return None;
        }
        let mut line = heading.to_owned();
        line.append(": ");
        line.append(numeral_text(self.max_count).as_str());
        line.append(" ");
        line.append(
            if self.minutes {
                "minutes"
            } else {
                "seconds"
            },
        );
        Some(line)
    }

    /// The countdown of the run: the count and its unit, without the quiet
    /// flag.
    pub fn timer(&self) -> (countdown: Timer)
        ensures
            countdown == Timer::of(*self),
    {
        Timer { max_count: self.max_count, minutes: self.minutes }
    }

    /// The length of the run in seconds, where it fits in 64 bits.
    pub fn total_seconds(&self) -> (total: Option<u64>)
        ensures
            total == if self.seconds() <= u64::MAX {
                Some(self.seconds() as u64)
            } else {
                None
            },
    {
        self.timer().total_seconds()
    }
}

/// Whether a text is a numeral above zero, bare or in a compound: the only
/// kind of token that acts on the count.
pub open spec fn sets_count(token: Seq<char>) -> bool {
    match token_of(token).value() {
        Some(value) => value > 0,
        None => false,
    }
}

/// Whether a text leaves every configuration as it was: an invalid token or
/// a numeral of zero.
pub open spec fn has_no_effect(token: Seq<char>) -> bool {
    match token_of(token) {
        TokenView::MinutesFlag => false,
        TokenView::QuietFlag => false,
        TokenView::Numeral(value) => value == 0,
        TokenView::CompoundDuration(value, _) => value == 0,
        TokenView::Invalid => true,
    }
}

/// What an issue means for the count: an invalid token and a numeral of zero
/// are without effect, a compound with unknown letters still sets the count,
/// and so does every duration without an issue.
pub proof fn lemma_issue_and_effect(token: Seq<char>)
    ensures
        has_no_effect(token) <==> (token_of(token).issue() == Some(Issue::InvalidToken)
            || token_of(token).issue() == Some(Issue::ZeroDuration)),
        token_of(token).issue() == Some(Issue::UnrecognizedUnit) ==> sets_count(token),
        token_of(token).issue() is None ==> (sets_count(token) || token == "-m"@ || token
            == "-q"@),
{
}

/// Resolving is repeatable: two argument vectors that hold the same texts
/// resolve to the same configuration, field for field. Nothing but the texts
/// and their order enters the result.
pub proof fn lemma_resolution_repeatable(first: Vec<String>, second: Vec<String>)
    requires
        texts(first@) == texts(second@),
    ensures
        Tima::resolve(texts(first@)) == Tima::resolve(texts(second@)),
{
}

/// Merging is associative, and the initial configuration is neutral on
/// either side.
pub proof fn lemma_merge_laws(a: Tima, b: Tima, c: Tima)
    ensures
        a.merged(b).merged(c) == a.merged(b.merged(c)),
        Tima::initial().merged(a) == a,
        a.merged(Tima::initial()) == a,
{
}

/// A token acts on a configuration as merging with what the token alone
/// resolves to.
pub proof fn lemma_step_is_merge(tmr: Tima, token: TokenView)
    ensures
        tmr.step(token) == tmr.merged(Tima::initial().step(token)),
{
}

/// A single token resolves to what it makes of the initial configuration.
pub proof fn lemma_resolve_single(token: Seq<char>)
    ensures
        Tima::resolve(seq![token]) == Tima::initial().step(token_of(token)),
{
    let single = seq![token];
    assert(single.drop_last() =~= Seq::empty());
    assert(Tima::resolve(single.drop_last()) == Tima::initial());
    assert(single.last() == token);
}

/// Resolving a sequence in two parts and merging gives what resolving the
/// whole gives.
pub proof fn lemma_resolve_concat(first: Seq<Seq<char>>, second: Seq<Seq<char>>)
    ensures
        Tima::resolve(first + second) == Tima::resolve(first).merged(Tima::resolve(second)),
    decreases second.len(),
{
    if second.len() == 0 {
        assert(first + second =~= first);
    } else {
        lemma_resolve_concat(first, second.drop_last());
        assert((first + second).drop_last() =~= first + second.drop_last());
        assert((first + second).last() == second.last());
    }
}

/// The flags are sticky and their place does not matter: the minutes flag is
/// set exactly when some token is `-m`, the quiet flag exactly when some token
/// is `-q`.
pub proof fn lemma_flags(tokens: Seq<Seq<char>>)
    ensures
        Tima::resolve(tokens).minutes <==> exists|i: int|
            0 <= i < tokens.len() && #[trigger] tokens[i] == "-m"@,
        Tima::resolve(tokens).quiet_mode <==> exists|i: int|
            0 <= i < tokens.len() && #[trigger] tokens[i] == "-q"@,
    decreases tokens.len(),
{
    reveal_strlit("-m");
    reveal_strlit("-q");
    assert("-m"@[1] != "-q"@[1]);
    if tokens.len() > 0 {
        let front = tokens.drop_last();
        lemma_flags(front);
        let last = tokens.len() - 1;
        if Tima::resolve(front).minutes {
            let i = choose|i: int| 0 <= i < front.len() && #[trigger] front[i] == "-m"@;
            assert(tokens[i] == "-m"@);
        }
        if Tima::resolve(front).quiet_mode {
            let i = choose|i: int| 0 <= i < front.len() && #[trigger] front[i] == "-q"@;
            assert(tokens[i] == "-q"@);
        }
        if tokens.last() == "-m"@ {
            assert(tokens[last] == "-m"@);
        }
        if tokens.last() == "-q"@ {
            assert(tokens[last] == "-q"@);
        }
        if exists|i: int| 0 <= i < tokens.len() && #[trigger] tokens[i] == "-m"@ {
            let i = choose|i: int| 0 <= i < tokens.len() && #[trigger] tokens[i] == "-m"@;
            if i < last {
                assert(front[i] == "-m"@);
            }
        }
        if exists|i: int| 0 <= i < tokens.len() && #[trigger] tokens[i] == "-q"@ {
            let i = choose|i: int| 0 <= i < tokens.len() && #[trigger] tokens[i] == "-q"@;
            if i < last {
                assert(front[i] == "-q"@);
            }
        }
    }
}

/// With no numeral above zero among the tokens the count stays zero.
pub proof fn lemma_count_without_numeral(tokens: Seq<Seq<char>>)
    requires
        forall|i: int| 0 <= i < tokens.len() ==> !sets_count(#[trigger] tokens[i]),
    ensures
        Tima::resolve(tokens).max_count == 0,
    decreases tokens.len(),
{
    if tokens.len() > 0 {
        let front = tokens.drop_last();
        assert forall|i: int| 0 <= i < front.len() implies !sets_count(#[trigger] front[i]) by {
            assert(front[i] == tokens[i]);
        }
        lemma_count_without_numeral(front);
        assert(!sets_count(tokens[tokens.len() - 1]));
    }
}

/// The last numeral above zero wins: the count is the value of the token at
/// `i` when that is a numeral above zero and none follows it. What stands
/// before it, larger or smaller, does not matter.
pub proof fn lemma_count_is_last_numeral(tokens: Seq<Seq<char>>, i: int)
    requires
        0 <= i < tokens.len(),
        sets_count(tokens[i]),
        forall|j: int| i < j < tokens.len() ==> !sets_count(#[trigger] tokens[j]),
    ensures
        token_of(tokens[i]).value() == Some(Tima::resolve(tokens).max_count),
    decreases tokens.len(),
{
    let front = tokens.drop_last();
    if i < tokens.len() - 1 {
        assert(front[i] == tokens[i]);
        assert forall|j: int| i < j < front.len() implies !sets_count(#[trigger] front[j]) by {
            assert(front[j] == tokens[j]);
        }
        lemma_count_is_last_numeral(front, i);
        assert(!sets_count(tokens[tokens.len() - 1]));
    }
}

/// Only durations act on the count: the durations of a sequence, taken
/// alone, resolve to the count of the whole sequence.
pub proof fn lemma_count_from_durations(tokens: Seq<Seq<char>>)
    ensures
        Tima::resolve(tokens.filter(|token: Seq<char>| is_duration(token))).max_count
            == Tima::resolve(tokens).max_count,
    decreases tokens.len(),
{
    let wanted = |token: Seq<char>| is_duration(token);
    if tokens.len() == 0 {
        tokens.lemma_filter_len(wanted);
        assert(tokens.filter(wanted) =~= tokens);
    } else {
        let front = tokens.drop_last();
        let last = tokens.last();
        lemma_count_from_durations(front);
        assert(tokens =~= front.push(last));
        front.lemma_filter_push(last, wanted);
        if is_duration(last) {
            let kept = front.filter(wanted).push(last);
            assert(kept.drop_last() =~= front.filter(wanted));
            assert(kept.last() == last);
        }
    }
}

/// A token without effect can be left out: the sequence without it resolves
/// to the same configuration.
pub proof fn lemma_ineffective_token(tokens: Seq<Seq<char>>, i: int)
    requires
        0 <= i < tokens.len(),
        has_no_effect(tokens[i]),
    ensures
        Tima::resolve(tokens.remove(i)) == Tima::resolve(tokens),
{
    let before = tokens.take(i);
    let single = seq![tokens[i]];
    let after = tokens.skip(i + 1);
    assert(tokens =~= (before + single) + after);
    assert(tokens.remove(i) =~= before + after);
    lemma_resolve_single(tokens[i]);
    lemma_resolve_concat(before, single);
    lemma_resolve_concat(before + single, after);
    lemma_resolve_concat(before, after);
}

} // verus!
