//! Emotion-aware TTS: detects sentiment from LLM output and adjusts speaking
//! speed. Uses a lightweight keyword approach — no ML model needed.

use vstd::prelude::*;

use crate::text::{chars_of, contains, contains_chars, to_lowercase};

verus! {

/// Detected emotional tone from a text clause.
#[derive(Debug, Clone, Copy, PartialEq, Eq, Structural)]
pub enum Tone {
    /// Default/neutral tone, no speed adjustment.
    Neutral,
    /// Excited, happy, or urgent — speaks faster.
    Excited,
    /// Calm, sad, or serious — speaks slower.
    Calm,
}

impl Tone {
    /// Returns the speed multiplier for this tone as float bits: 1.0, 1.25 and
    /// 0.85.
    pub fn speed_multiplier(self) -> (r: u32)
        ensures
            r == (match self {
                Tone::Neutral => 0x3f80_0000u32,
                Tone::Excited => 0x3fa0_0000u32,
                Tone::Calm => 0x3f59_999au32,
            }),
    {
        match self {
            Tone::Neutral => 0x3f80_0000,
            Tone::Excited => 0x3fa0_0000,
            Tone::Calm => 0x3f59_999a,
        }
    }
}

/// Words that mark excitement or urgency.
pub open spec fn excited_words() -> Seq<Seq<char>> {
    seq![
        "!"@, "wow"@, "great"@, "amazing"@, "awesome"@, "exciting"@, "fantastic"@, "wonderful"@,
        "hurry"@, "quick"@, "fast"@, "urgent"@, "alert"@, "congratulations"@, "brilliant"@,
        "excellent"@, "incredible"@, "love"@, "beautiful"@,
    ]
}

/// Words that mark calm or sadness.
pub open spec fn calm_words() -> Seq<Seq<char>> {
    seq![
        "sorry"@, "sad"@, "unfortunately"@, "calm"@, "slow"@, "careful"@, "gentle"@, "quiet"@,
        "peaceful"@, "rest"@, "regret"@, "apologize"@, "unfortunately"@, "however"@, "although"@,
        "perhaps"@, "maybe"@,
    ]
}

/// How many of the words stand in `text`.
pub open spec fn score(text: Seq<char>, words: Seq<Seq<char>>) -> nat
    decreases words.len(),
{
    if words.len() == 0 {
        0
    } else if crate::text::contains(text, words.last()) {
        score(text, words.drop_last()) + 1
    } else {
        score(text, words.drop_last())
    }
}

/// The tone of a lower-case clause: the kind of marker that more of stand in
/// it.
pub open spec fn tone_of(lower: Seq<char>) -> Tone {
    let excited = score(lower, excited_words());
    let calm = score(lower, calm_words());
    if excited > calm {
        Tone::Excited
    } else if calm > excited {
        Tone::Calm
    } else {
        Tone::Neutral
    }
}

/// The words of a list of string slices.
pub open spec fn slices(v: Seq<&'static str>) -> Seq<Seq<char>> {
    v.map_values(|s: &'static str| s@)
}

fn count(text: &Vec<char>, words: &Vec<&'static str>) -> (r: usize)
    ensures
        r == score(text@, slices(words@)),
{
    let ghost all = slices(words@);
    let mut n: usize = 0;
    let mut i: usize = 0;
    while i < words.len()
        invariant
            i <= words@.len(),
            n <= i,
            all == slices(words@),
            n == score(text@, all.take(i as int)),
        decreases words@.len() - i,
    {
        assert(all.take(i + 1).drop_last() =~= all.take(i as int));
        assert(all.take(i + 1).last() == words@[i as int]@);
        if contains_chars(text, &chars_of(words[i])) {
            n += 1;
        }
        i += 1;
    }
    assert(all.take(all.len() as int) =~= all);
    n
}

/// The tone of a clause that is lower-case already.
pub fn tone_of_lower(lower: &str) -> (r: Tone)
    ensures
        r == tone_of(lower@),
{
    let excited: Vec<&'static str> = vec![
        "!", "wow", "great", "amazing", "awesome", "exciting", "fantastic", "wonderful", "hurry",
        "quick", "fast", "urgent", "alert", "congratulations", "brilliant", "excellent",
        "incredible", "love", "beautiful",
    ];
    let calm: Vec<&'static str> = vec![
        "sorry", "sad", "unfortunately", "calm", "slow", "careful", "gentle", "quiet",
        "peaceful", "rest", "regret", "apologize", "unfortunately", "however", "although",
        "perhaps", "maybe",
    ];
    assert(slices(excited@) =~= excited_words());
    assert(slices(calm@) =~= calm_words());
    let text = chars_of(lower);
    let e = count(&text, &excited);
    let c = count(&text, &calm);
    if e > c {
        Tone::Excited
    } else if c > e {
        Tone::Calm
    } else {
        Tone::Neutral
    }
}

/// Scans a clause for sentiment keywords and returns the detected [`Tone`].
/// Letter case makes no difference.
pub fn detect_tone(clause: &str) -> (r: Tone)
    ensures
        r == tone_of(crate::text::lowercase(clause@)),
{
    tone_of_lower(to_lowercase(clause).as_str())
}

/// Clauses with the same lower-case text have the same tone.
pub proof fn law_tone_ignores_letter_case(a: Seq<char>, b: Seq<char>)
    requires
        crate::text::lowercase(a) == crate::text::lowercase(b),
    ensures
        tone_of(crate::text::lowercase(a)) == tone_of(crate::text::lowercase(b)),
{
}

/// Whether a lower-case clause has a mark of excitement.
pub open spec fn sounds_excited(s: Seq<char>) -> bool {
    ||| contains(s, "!"@)
    ||| contains(s, "wow"@)
    ||| contains(s, "great"@)
    ||| contains(s, "amazing"@)
    ||| contains(s, "awesome"@)
    ||| contains(s, "exciting"@)
    ||| contains(s, "fantastic"@)
    ||| contains(s, "wonderful"@)
    ||| contains(s, "hurry"@)
    ||| contains(s, "quick"@)
    ||| contains(s, "fast"@)
    ||| contains(s, "urgent"@)
    ||| contains(s, "alert"@)
    ||| contains(s, "congratulations"@)
    ||| contains(s, "brilliant"@)
    ||| contains(s, "excellent"@)
    ||| contains(s, "incredible"@)
    ||| contains(s, "love"@)
    ||| contains(s, "beautiful"@)
}

/// Whether a lower-case clause has a mark of calm or sadness.
pub open spec fn sounds_calm(s: Seq<char>) -> bool {
    ||| contains(s, "sorry"@)
    ||| contains(s, "sad"@)
    ||| contains(s, "unfortunately"@)
    ||| contains(s, "calm"@)
    ||| contains(s, "slow"@)
    ||| contains(s, "careful"@)
    ||| contains(s, "gentle"@)
    ||| contains(s, "quiet"@)
    ||| contains(s, "peaceful"@)
    ||| contains(s, "rest"@)
    ||| contains(s, "regret"@)
    ||| contains(s, "apologize"@)
    ||| contains(s, "however"@)
    ||| contains(s, "although"@)
    ||| contains(s, "perhaps"@)
    ||| contains(s, "maybe"@)
}

proof fn lemma_score(text: Seq<char>, words: Seq<Seq<char>>)
    ensures
        score(text, words) > 0 <==> exists|i: int|
            0 <= i < words.len() && contains(text, #[trigger] words[i]),
    decreases words.len(),
{
    if words.len() > 0 {
        let rest = words.drop_last();
        lemma_score(text, rest);
        assert(words[words.len() - 1] == words.last());
        if exists|i: int| 0 <= i < rest.len() && contains(text, #[trigger] rest[i]) {
            let i = choose|i: int| 0 <= i < rest.len() && contains(text, #[trigger] rest[i]);
            assert(contains(text, words[i]));
        }
        if exists|i: int| 0 <= i < words.len() && contains(text, #[trigger] words[i]) {
            let i = choose|i: int| 0 <= i < words.len() && contains(text, #[trigger] words[i]);
            if i < rest.len() {
                assert(contains(text, rest[i]));
            }
        }
    }
}

/// A clause sounds as its words do: excited where it has a mark of excitement
/// and none of calm, calm where it is the other way round, and neutral without
/// any.
pub proof fn law_words_set_the_tone(lower: Seq<char>)
    ensures
        sounds_excited(lower) && !sounds_calm(lower) ==> tone_of(lower) == Tone::Excited,
        sounds_calm(lower) && !sounds_excited(lower) ==> tone_of(lower) == Tone::Calm,
        !sounds_calm(lower) && !sounds_excited(lower) ==> tone_of(lower) == Tone::Neutral,
{
    let e = excited_words();
    let c = calm_words();
    lemma_score(lower, e);
    lemma_score(lower, c);
    assert(sounds_excited(lower) <==> exists|i: int|
        0 <= i < e.len() && contains(lower, #[trigger] e[i])) by {
        assert(e[0] == "!"@ && e[1] == "wow"@ && e[2] == "great"@ && e[3] == "amazing"@ && e[4]
            == "awesome"@ && e[5] == "exciting"@ && e[6] == "fantastic"@ && e[7] == "wonderful"@
            && e[8] == "hurry"@ && e[9] == "quick"@ && e[10] == "fast"@ && e[11] == "urgent"@
            && e[12] == "alert"@ && e[13] == "congratulations"@ && e[14] == "brilliant"@ && e[15]
            == "excellent"@ && e[16] == "incredible"@ && e[17] == "love"@ && e[18]
            == "beautiful"@);
    }
    assert(sounds_calm(lower) <==> exists|i: int|
        0 <= i < c.len() && contains(lower, #[trigger] c[i])) by {
        assert(c[0] == "sorry"@ && c[1] == "sad"@ && c[2] == "unfortunately"@ && c[3] == "calm"@
            && c[4] == "slow"@ && c[5] == "careful"@ && c[6] == "gentle"@ && c[7] == "quiet"@
            && c[8] == "peaceful"@ && c[9] == "rest"@ && c[10] == "regret"@ && c[11]
            == "apologize"@ && c[12] == "unfortunately"@ && c[13] == "however"@ && c[14]
            == "although"@ && c[15] == "perhaps"@ && c[16] == "maybe"@);
    }
}

/// The words of a list that stand in a text, by their places.
pub open spec fn marks(text: Seq<char>, words: Seq<Seq<char>>) -> Set<int> {
    Set::new(|i: int| 0 <= i < words.len() && contains(text, words[i]))
}

proof fn lemma_score_counts(text: Seq<char>, words: Seq<Seq<char>>)
    ensures
        marks(text, words).finite(),
        marks(text, words).len() == score(text, words),
    decreases words.len(),
{
    let all = marks(text, words);
    if words.len() == 0 {
        assert(all =~= Set::empty());
    } else {
        let less = words.drop_last();
        let n = words.len() - 1;
        lemma_score_counts(text, less);
        let few = marks(text, less);
        assert forall|i: int| all.contains(i) == (few.contains(i) || i == n && contains(
            text,
            words.last(),
        )) by {
            if 0 <= i < n {
                assert(less[i] == words[i]);
            }
        }
        assert(!few.contains(n));
        if contains(text, words.last()) {
            assert(all =~= few.insert(n));
        } else {
            assert(all =~= few);
        }
    }
}

/// The kind of mark that more of stand in a clause sets its tone, each mark
/// counted once; where there are as many of both, the clause is neutral.
pub proof fn law_the_greater_number_sets_the_tone(lower: Seq<char>)
    ensures
        marks(lower, excited_words()).finite(),
        marks(lower, calm_words()).finite(),
        tone_of(lower) == Tone::Excited <==> marks(lower, excited_words()).len() > marks(
            lower,
            calm_words(),
        ).len(),
        tone_of(lower) == Tone::Calm <==> marks(lower, calm_words()).len() > marks(
            lower,
            excited_words(),
        ).len(),
{
    lemma_score_counts(lower, excited_words());
    lemma_score_counts(lower, calm_words());
}

} // verus!
