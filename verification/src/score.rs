//! How much a decoded string looks like text, and which of two decodes to keep.

use crate::text::{
    ascii_lower, is_ascii_digit, is_ascii_letter, is_control, is_control_char, is_digit, is_letter,
    lower, same_text, to_lower, REPLACEMENT,
};
use std::collections::HashMap;
use vstd::prelude::*;
use vstd::string::*;

verus! {

broadcast use vstd::std_specs::hash::group_hash_axioms;

/// How many operand bytes a font must show before its CMap choice is made for good.
pub const SAMPLE_TARGET_BYTES: usize = 240;

/// Common English words.
pub open spec fn is_common_word(word: Seq<char>) -> bool {
    ||| word == "the"@
    ||| word == "and"@
    ||| word == "of"@
    ||| word == "to"@
    ||| word == "in"@
    ||| word == "a"@
    ||| word == "is"@
    ||| word == "that"@
    ||| word == "for"@
    ||| word == "with"@
    ||| word == "on"@
    ||| word == "as"@
    ||| word == "by"@
    ||| word == "from"@
    ||| word == "this"@
    ||| word == "be"@
    ||| word == "are"@
    ||| word == "at"@
    ||| word == "or"@
    ||| word == "not"@
    ||| word == "it"@
    ||| word == "our"@
}

/// CJK ideographs and kana.
pub open spec fn is_cjk(c: char) -> bool {
    ||| '\u{4E00}' <= c <= '\u{9FFF}'
    ||| '\u{3040}' <= c <= '\u{309F}'
    ||| '\u{30A0}' <= c <= '\u{30FF}'
    ||| '\u{3400}' <= c <= '\u{4DBF}'
    ||| '\u{F900}' <= c <= '\u{FAFF}'
}

/// What one character that is neither letter, digit nor space counts against a text.
pub open spec fn noise(c: char) -> int {
    if is_ascii_letter(c) || c == ' ' || is_ascii_digit(c) {
        0
    } else if is_control_char(c) || c == REPLACEMENT {
        3
    } else if is_cjk(c) {
        0
    } else {
        1
    }
}

/// The characters that count as letters.
pub open spec fn is_scored_letter(c: char) -> bool {
    is_ascii_letter(c) || is_cjk(c)
}

/// How many characters of a text have a property.
pub open spec fn count_if(s: Seq<char>, p: spec_fn(char) -> bool) -> int
    decreases s.len(),
{
    if s.len() == 0 {
        0
    } else {
        count_if(s.drop_last(), p) + if p(s.last()) {
            1int
        } else {
            0
        }
    }
}

/// How many letters a text has.
pub open spec fn letters(s: Seq<char>) -> int {
    count_if(s, |c: char| is_scored_letter(c))
}

/// How many spaces a text has.
pub open spec fn spaces(s: Seq<char>) -> int {
    count_if(s, |c: char| c == ' ')
}

/// How many digits a text has.
pub open spec fn digits(s: Seq<char>) -> int {
    count_if(s, |c: char| is_ascii_digit(c))
}

/// What all characters of a text count against it.
pub open spec fn total_noise(s: Seq<char>) -> int
    decreases s.len(),
{
    if s.len() == 0 {
        0
    } else {
        total_noise(s.drop_last()) + noise(s.last())
    }
}

/// The run of ASCII letters that a text ends in.
pub open spec fn last_run(s: Seq<char>) -> Seq<char>
    decreases s.len(),
{
    if s.len() > 0 && is_ascii_letter(s.last()) {
        last_run(s.drop_last()).push(s.last())
    } else {
        Seq::empty()
    }
}

/// How many common words a text holds that a further character brings to an end.
pub open spec fn ended_words(s: Seq<char>) -> int
    decreases s.len(),
{
    if s.len() == 0 {
        0
    } else {
        ended_words(s.drop_last()) + if !is_ascii_letter(s.last()) && is_common_word(
            lower(last_run(s.drop_last())),
        ) {
            1int
        } else {
            0
        }
    }
}

/// How many of the runs of ASCII letters in a text are common English words.
pub open spec fn word_hits(s: Seq<char>) -> int {
    ended_words(s) + if is_common_word(lower(last_run(s))) {
        1int
    } else {
        0
    }
}

/// The score of a text: common words, letters, spaces and digits count for it, noise against
/// it, and so does a long text without a single common word.
pub open spec fn text_score(s: Seq<char>) -> int {
    word_hits(s) * 10 + letters(s) + spaces(s) * 2 + digits(s) - total_noise(s) * 2 - if letters(s)
        > 15 && word_hits(s) == 0 {
        15int
    } else {
        0
    }
}

/// The counts that make up a score grow by at most three per character.
proof fn lemma_counts_bounded(s: Seq<char>)
    ensures
        0 <= letters(s) <= s.len(),
        0 <= spaces(s) <= s.len(),
        0 <= digits(s) <= s.len(),
        0 <= total_noise(s) <= 3 * s.len(),
        0 <= ended_words(s) <= s.len(),
    decreases s.len(),
{
    if s.len() > 0 {
        lemma_counts_bounded(s.drop_last());
    }
}

/// The score of a text is bounded by its length.
pub proof fn law_score_bounded(s: Seq<char>)
    ensures
        -6 * s.len() - 15 <= text_score(s) <= 14 * s.len() + 10,
{
    lemma_counts_bounded(s);
}

fn common_word(word: &str) -> (r: bool)
    ensures
        r == is_common_word(word@),
{
    same_text(word, "the") || same_text(word, "and") || same_text(word, "of") || same_text(
        word,
        "to",
    ) || same_text(word, "in") || same_text(word, "a") || same_text(word, "is") || same_text(
        word,
        "that",
    ) || same_text(word, "for") || same_text(word, "with") || same_text(word, "on") || same_text(
        word,
        "as",
    ) || same_text(word, "by") || same_text(word, "from") || same_text(word, "this") || same_text(
        word,
        "be",
    ) || same_text(word, "are") || same_text(word, "at") || same_text(word, "or") || same_text(
        word,
        "not",
    ) || same_text(word, "it") || same_text(word, "our")
}

fn cjk(c: char) -> (r: bool)
    ensures
        r == is_cjk(c),
{
    ('\u{4E00}' <= c && c <= '\u{9FFF}') || ('\u{3040}' <= c && c <= '\u{309F}') || ('\u{30A0}' <= c
        && c <= '\u{30FF}') || ('\u{3400}' <= c && c <= '\u{4DBF}') || ('\u{F900}' <= c && c
        <= '\u{FAFF}')
}

/// The score of a text of any length.
pub fn wide_score(text: &str) -> (score: i128)
    ensures
        score == text_score(text@),
        -0x1_0000_0000_0000_0000_0000 < score < 0x1_0000_0000_0000_0000_0000,
{
    let len = text.unicode_len();
    let mut letter_count: i128 = 0;
    let mut space_count: i128 = 0;
    let mut digit_count: i128 = 0;
    let mut noise_count: i128 = 0;
    let mut hits: i128 = 0;
    let mut current = String::new();
    for c in it: text.chars()
        invariant
            it.seq() == text@,
            len == text@.len(),
            letter_count == letters(text@.take(it.index())),
            space_count == spaces(text@.take(it.index())),
            digit_count == digits(text@.take(it.index())),
            noise_count == total_noise(text@.take(it.index())),
            hits == ended_words(text@.take(it.index())),
            current@ == lower(last_run(text@.take(it.index()))),
            0 <= letter_count <= it.index(),
            0 <= space_count <= it.index(),
            0 <= digit_count <= it.index(),
            0 <= noise_count <= 3 * it.index(),
            0 <= hits <= it.index(),
    {
        let ghost seen = text@.take(it.index());
        let ghost next = text@.take(it.index() + 1);
        assert(next.drop_last() == seen);
        assert(next.last() == c);
        if is_letter(c) {
            letter_count = letter_count + 1;
            current.push(to_lower(c));
            assert(lower(last_run(seen).push(c)) == lower(last_run(seen)).push(ascii_lower(c)));
        } else {
            if common_word(current.as_str()) {
                hits = hits + 1;
            }
            current = String::new();
            assert(lower(Seq::<char>::empty()) == Seq::<char>::empty());
            if c == ' ' {
                space_count = space_count + 1;
            } else if is_digit(c) {
                digit_count = digit_count + 1;
            } else if is_control(c) || c == REPLACEMENT {
                noise_count = noise_count + 3;
            } else if cjk(c) {
                letter_count = letter_count + 1;
            } else {
                noise_count = noise_count + 1;
            }
        }
    }
    assert(text@.take(text@.len() as int) == text@);
    if common_word(current.as_str()) {
        hits = hits + 1;
    }
    let score: i128 = hits * 10 + letter_count + space_count * 2 + digit_count - noise_count * 2;
    if letter_count > 15 && hits == 0 {
        score - 15
    } else {
        score
    }
}

/// The score of a text.
pub fn score_text(text: &str) -> (score: i32)
    requires
        i32::MIN <= text_score(text@) <= i32::MAX,
    ensures
        score == text_score(text@),
{
    wide_score(text) as i32
}

/// Of a CMap's own decode and the decode through its remapped form, the one to keep: the other
/// where one is empty, the remapped one only where it scores better by more than three.
pub open spec fn better_decode(primary: Seq<char>, remapped: Seq<char>) -> CMapChoice {
    if primary.len() == 0 {
        CMapChoice::Remapped
    } else if remapped.len() == 0 {
        CMapChoice::Primary
    } else if text_score(remapped) > text_score(primary) + 3 {
        CMapChoice::Remapped
    } else {
        CMapChoice::Primary
    }
}

/// Which of the two decodes is the better one.
pub fn better_of(primary: &str, remapped: &str) -> (choice: CMapChoice)
    ensures
        choice == better_decode(primary@, remapped@),
{
    if primary.is_empty() {
        return CMapChoice::Remapped;
    }
    if remapped.is_empty() {
        return CMapChoice::Primary;
    }
    if wide_score(remapped) > wide_score(primary) + 3 {
        CMapChoice::Remapped
    } else {
        CMapChoice::Primary
    }
}

/// The better of the two decodes.
pub fn choose_best_cmap_decode(primary: String, remapped: String) -> (best: String)
    ensures
        best@ == match better_decode(primary@, remapped@) {
            CMapChoice::Primary => primary@,
            CMapChoice::Remapped => remapped@,
        },
{
    match better_of(primary.as_str(), remapped.as_str()) {
        CMapChoice::Primary => primary,
        CMapChoice::Remapped => remapped,
    }
}

/// Which form of a font's CMap to decode through.
#[derive(Debug, Copy, Clone, PartialEq, Eq, Structural)]
pub enum CMapChoice {
    Primary,
    Remapped,
}

/// What has been seen of one font's text, and the choice once it is made.
#[derive(Debug, Clone)]
pub struct CMapDecision {
    primary_sample: String,
    remapped_sample: String,
    sample_bytes: usize,
    choice: Option<CMapChoice>,
}

/// The samples and the choice of one font.
pub struct DecisionView {
    pub primary: Seq<char>,
    pub remapped: Seq<char>,
    pub sample_bytes: usize,
    pub choice: Option<CMapChoice>,
}

impl View for CMapDecision {
    type V = DecisionView;

    closed spec fn view(&self) -> DecisionView {
        DecisionView {
            primary: self.primary_sample@,
            remapped: self.remapped_sample@,
            sample_bytes: self.sample_bytes,
            choice: self.choice,
        }
    }
}

/// A font of which nothing has been seen.
pub open spec fn fresh_decision() -> DecisionView {
    DecisionView {
        primary: Seq::empty(),
        remapped: Seq::empty(),
        sample_bytes: 0,
        choice: None,
    }
}

/// A font's record once one more operand has been seen. The choice is made when the samples
/// reach their target, for the remapped form only where it scores better by more than five; it
/// stays as it was made.
pub open spec fn next_decision(
    seen: DecisionView,
    primary: Seq<char>,
    remapped: Seq<char>,
    bytes: usize,
) -> DecisionView {
    let primary = seen.primary + primary;
    let remapped = seen.remapped + remapped;
    let sample_bytes = if seen.sample_bytes + bytes > usize::MAX {
        usize::MAX
    } else {
        (seen.sample_bytes + bytes) as usize
    };
    DecisionView {
        primary,
        remapped,
        sample_bytes,
        choice: if seen.choice is None && sample_bytes >= SAMPLE_TARGET_BYTES {
            Some(
                if text_score(remapped) > text_score(primary) + 5 {
                    CMapChoice::Remapped
                } else {
                    CMapChoice::Primary
                },
            )
        } else {
            seen.choice
        },
    }
}

/// The CMap choices of a document's fonts, by object number.
#[derive(Debug, Clone)]
pub struct CMapDecisionCache {
    decisions: HashMap<u32, CMapDecision>,
}

impl View for CMapDecisionCache {
    type V = Map<u32, DecisionView>;

    closed spec fn view(&self) -> Map<u32, DecisionView> {
        self.decisions@.map_values(|d: CMapDecision| d@)
    }
}

/// The record of a font in a cache.
pub open spec fn decision_of(cache: Map<u32, DecisionView>, obj_num: u32) -> DecisionView {
    if cache.contains_key(obj_num) {
        cache[obj_num]
    } else {
        fresh_decision()
    }
}

impl CMapDecisionCache {
    pub fn new() -> (cache: Self)
        ensures
            cache@ == Map::<u32, DecisionView>::empty(),
    {
        let cache = CMapDecisionCache { decisions: HashMap::new() };
        assert(cache@ =~= Map::<u32, DecisionView>::empty());
        cache
    }

    /// The choice made for a font, if it has been made.
    pub fn get_choice(&self, obj_num: u32) -> (choice: Option<CMapChoice>)
        ensures
            choice == decision_of(self@, obj_num).choice,
    {
        match self.decisions.get(&obj_num) {
            Some(decision) => decision.choice,
            None => None,
        }
    }

    /// Adds the two decodes of one more operand to a font's samples; gives the choice, if it is
    /// made by then.
    pub fn consider(
        &mut self,
        obj_num: u32,
        primary: &str,
        remapped: &str,
        bytes_len: usize,
    ) -> (choice: Option<CMapChoice>)
        ensures
            final(self)@ == old(self)@.insert(
                obj_num,
                next_decision(decision_of(old(self)@, obj_num), primary@, remapped@, bytes_len),
            ),
            choice == next_decision(
                decision_of(old(self)@, obj_num),
                primary@,
                remapped@,
                bytes_len,
            ).choice,
    {
        let ghost before = self@;
        let mut entry = match self.decisions.remove(&obj_num) {
            Some(entry) => entry,
            None => CMapDecision {
                primary_sample: String::new(),
                remapped_sample: String::new(),
                sample_bytes: 0,
                choice: None,
            },
        };
        assert(entry@ == decision_of(before, obj_num));
        entry.sample_bytes = entry.sample_bytes.saturating_add(bytes_len);
        entry.primary_sample.append(primary);
        entry.remapped_sample.append(remapped);
        if entry.choice.is_none() && entry.sample_bytes >= SAMPLE_TARGET_BYTES {
            let score_primary = wide_score(entry.primary_sample.as_str());
            let score_remap = wide_score(entry.remapped_sample.as_str());
            entry.choice = if score_remap > score_primary + 5 {
                Some(CMapChoice::Remapped)
            } else {
                Some(CMapChoice::Primary)
            };
        }
        let choice = entry.choice;
        let ghost next = entry@;
        assert(next == next_decision(
            decision_of(before, obj_num),
            primary@,
            remapped@,
            bytes_len,
        ));
        self.decisions.insert(obj_num, entry);
        assert(self@ =~= before.insert(obj_num, next));
        choice
    }
}

impl Default for CMapDecisionCache {
    fn default() -> (cache: Self)
        ensures
            cache@ == Map::<u32, DecisionView>::empty(),
    {
        CMapDecisionCache::new()
    }
}

/// Once a font's choice is made, no operand changes it.
pub proof fn law_choice_is_final(
    seen: DecisionView,
    primary: Seq<char>,
    remapped: Seq<char>,
    bytes: usize,
)
    requires
        seen.choice is Some,
    ensures
        next_decision(seen, primary, remapped, bytes).choice == seen.choice,
{
}

/// A font's choice is made as soon as its samples reach their target.
pub proof fn law_choice_is_made_at_the_target(
    seen: DecisionView,
    primary: Seq<char>,
    remapped: Seq<char>,
    bytes: usize,
)
    requires
        seen.sample_bytes + bytes >= SAMPLE_TARGET_BYTES,
    ensures
        next_decision(seen, primary, remapped, bytes).choice is Some,
{
}

/// Considering an operand of one font leaves what the cache says of every other font.
pub proof fn law_fonts_are_independent(
    cache: Map<u32, DecisionView>,
    font: u32,
    other: u32,
    primary: Seq<char>,
    remapped: Seq<char>,
    bytes: usize,
)
    requires
        font != other,
    ensures
        decision_of(
            cache.insert(
                font,
                next_decision(decision_of(cache, font), primary, remapped, bytes),
            ),
            other,
        ) == decision_of(cache, other),
{
}

}
