//! What scores and CMap choices promise.

use crate::score::{
    better_decode, decision_of, digits, ended_words, fresh_decision, is_common_word, last_run,
    letters, next_decision, spaces, text_score, total_noise, word_hits, CMapChoice, DecisionView,
};
use crate::text::ascii_lower;
use vstd::prelude::*;
use vstd::string::*;

verus! {

/// One operand of a font: its text through the CMap, its text through the remapped form, and its
/// length in bytes.
pub struct Operand {
    pub primary: Seq<char>,
    pub remapped: Seq<char>,
    pub bytes: usize,
}

/// A font's record once some operands have been considered, from the first to the last.
pub open spec fn record_of(operands: Seq<Operand>) -> DecisionView
    decreases operands.len(),
{
    if operands.len() == 0 {
        fresh_decision()
    } else {
        let last = operands.last();
        next_decision(record_of(operands.drop_last()), last.primary, last.remapped, last.bytes)
    }
}

/// The texts of some operands through the CMap, one after another.
pub open spec fn primaries(operands: Seq<Operand>) -> Seq<char> {
    operands.map_values(|o: Operand| o.primary).flatten()
}

/// The texts of some operands through the remapped form, one after another.
pub open spec fn remappeds(operands: Seq<Operand>) -> Seq<char> {
    operands.map_values(|o: Operand| o.remapped).flatten()
}

/// How many bytes some operands have.
pub open spec fn byte_total(operands: Seq<Operand>) -> int {
    operands.map_values(|o: Operand| o.bytes as int).fold_left(0int, |a: int, b: int| a + b)
}

proof fn lemma_one_more(operands: Seq<Operand>)
    requires
        operands.len() > 0,
    ensures
        primaries(operands) == primaries(operands.drop_last()) + operands.last().primary,
        remappeds(operands) == remappeds(operands.drop_last()) + operands.last().remapped,
        byte_total(operands) == byte_total(operands.drop_last()) + operands.last().bytes,
{
    let front = operands.drop_last();
    let last = operands.last();
    let a = front.map_values(|o: Operand| o.primary);
    let b = front.map_values(|o: Operand| o.remapped);
    assert(operands.map_values(|o: Operand| o.primary) =~= a.push(last.primary));
    assert(operands.map_values(|o: Operand| o.remapped) =~= b.push(last.remapped));
    a.lemma_flatten_push(last.primary);
    b.lemma_flatten_push(last.remapped);
    let c = operands.map_values(|o: Operand| o.bytes as int);
    assert(c.drop_last() =~= front.map_values(|o: Operand| o.bytes as int));
}

/// A font's samples are all the texts that it was considered with, in their order, and no less
/// than all their bytes are counted.
pub proof fn law_samples_are_all_that_was_seen(operands: Seq<Operand>)
    ensures
        record_of(operands).primary == primaries(operands),
        record_of(operands).remapped == remappeds(operands),
        record_of(operands).sample_bytes == if byte_total(operands) > usize::MAX {
            usize::MAX as int
        } else {
            byte_total(operands)
        },
        byte_total(operands) >= 0,
    decreases operands.len(),
{
    if operands.len() > 0 {
        law_samples_are_all_that_was_seen(operands.drop_last());
        lemma_one_more(operands);
    } else {
        assert(operands.map_values(|o: Operand| o.primary) =~= Seq::<Seq<char>>::empty());
        assert(operands.map_values(|o: Operand| o.remapped) =~= Seq::<Seq<char>>::empty());
    }
}

/// As long as the operands of a font have fewer than 240 bytes, no choice is made. The operand
/// that brings them to 240 makes it: for the remapped form exactly where the whole of its text
/// scores more than five above the whole of the other.
pub proof fn law_choice_rests_on_the_whole_sample(operands: Seq<Operand>)
    ensures
        byte_total(operands) < 240 ==> record_of(operands).choice is None,
        byte_total(operands) >= 240 && byte_total(operands.drop_last()) < 240 ==> record_of(
            operands,
        ).choice == Some(
            if text_score(remappeds(operands)) > text_score(primaries(operands)) + 5 {
                CMapChoice::Remapped
            } else {
                CMapChoice::Primary
            },
        ),
    decreases operands.len(),
{
    law_samples_are_all_that_was_seen(operands);
    if operands.len() > 0 {
        lemma_one_more(operands);
        law_samples_are_all_that_was_seen(operands.drop_last());
        law_choice_rests_on_the_whole_sample(operands.drop_last());
    }
}

/// A choice, once made, is that of every longer record.
pub proof fn law_choice_outlasts_operands(operands: Seq<Operand>, more: Seq<Operand>)
    requires
        record_of(operands).choice is Some,
    ensures
        record_of(operands + more).choice == record_of(operands).choice,
    decreases more.len(),
{
    if more.len() == 0 {
        assert(operands + more =~= operands);
    } else {
        assert((operands + more).drop_last() =~= operands + more.drop_last());
        law_choice_outlasts_operands(operands, more.drop_last());
    }
}

/// The record of a font in a cache is the one that was put there, and a fresh one before that.
pub proof fn law_records_are_kept_by_font(
    cache: Map<u32, DecisionView>,
    font: u32,
    record: DecisionView,
)
    ensures
        decision_of(cache.insert(font, record), font) == record,
        forall|other: u32|
            #![trigger decision_of(cache.insert(font, record), other)]
            other != font && cache.contains_key(other) ==> decision_of(
                cache.insert(font, record),
                other,
            ) == cache[other],
        !cache.contains_key(font) ==> decision_of(cache, font).choice is None && decision_of(
            cache,
            font,
        ).primary.len() == 0 && decision_of(cache, font).remapped.len() == 0 && decision_of(
            cache,
            font,
        ).sample_bytes == 0,
{
}

/// Of two decodes an empty one gives way to the other, the CMap's own to the remapped one where
/// both are empty; of two texts the remapped one is taken exactly where it scores more than three
/// above the other.
pub proof fn law_better_decode(primary: Seq<char>, remapped: Seq<char>)
    ensures
        primary.len() == 0 ==> better_decode(primary, remapped) == CMapChoice::Remapped,
        primary.len() > 0 && remapped.len() == 0 ==> better_decode(primary, remapped)
            == CMapChoice::Primary,
        primary.len() > 0 && remapped.len() > 0 ==> (better_decode(primary, remapped)
            == CMapChoice::Remapped <==> text_score(remapped) - text_score(primary) > 3),
{
}

/// Swapping two decodes that score more than three apart picks the same text.
pub proof fn law_clear_winner_wins_on_either_side(a: Seq<char>, b: Seq<char>)
    requires
        a.len() > 0,
        b.len() > 0,
        text_score(a) > text_score(b) + 3,
    ensures
        better_decode(b, a) == CMapChoice::Remapped,
        better_decode(a, b) == CMapChoice::Primary,
{
}

/// The letters A to Z and a to z.
pub open spec fn latin() -> spec_fn(char) -> bool {
    |c: char| ('A' <= c && c <= 'Z') || ('a' <= c && c <= 'z')
}

/// The ideographs and kana that count as letters.
pub open spec fn ideograph() -> spec_fn(char) -> bool {
    |c: char|
        ('\u{4E00}' <= c && c <= '\u{9FFF}') || ('\u{3040}' <= c && c <= '\u{30FF}') || (
        '\u{3400}' <= c && c <= '\u{4DBF}') || ('\u{F900}' <= c && c <= '\u{FAFF}')
}

/// The characters that count threefold against a text: controls and U+FFFD.
pub open spec fn broken() -> spec_fn(char) -> bool {
    |c: char| c < ' ' || ('\u{7F}' <= c && c <= '\u{9F}') || c == '\u{FFFD}'
}

/// The characters that count once against a text: all that are neither letters, ideographs,
/// digits, spaces nor broken.
pub open spec fn other() -> spec_fn(char) -> bool {
    |c: char|
        !latin()(c) && !ideograph()(c) && !broken()(c) && c != ' ' && !('0' <= c && c <= '9')
}

proof fn lemma_filter_step(s: Seq<char>, p: spec_fn(char) -> bool)
    requires
        s.len() > 0,
    ensures
        s.filter(p).len() == s.drop_last().filter(p).len() + if p(s.last()) {
            1int
        } else {
            0
        },
{
    reveal(Seq::filter);
}

proof fn lemma_filter_none(p: spec_fn(char) -> bool)
    ensures
        Seq::<char>::empty().filter(p).len() == 0,
{
    reveal(Seq::filter);
}

/// What a text is made of decides its score: each letter, ideograph and digit counts one for it,
/// each space two, each common word ten; each control and each U+FFFD counts six against it, any
/// other character two; and more than 15 letters without a common word count 15 against it.
pub proof fn law_score_counts_characters(s: Seq<char>)
    ensures
        letters(s) == s.filter(latin()).len() + s.filter(ideograph()).len(),
        text_score(s) == 10 * word_hits(s) + s.filter(latin()).len() + s.filter(ideograph()).len()
            + 2 * s.filter(|c: char| c == ' ').len() + s.filter(
            |c: char| '0' <= c && c <= '9',
        ).len() - 6 * s.filter(broken()).len() - 2 * s.filter(other()).len() - if s.filter(
            latin(),
        ).len() + s.filter(ideograph()).len() > 15 && word_hits(s) == 0 {
            15int
        } else {
            0
        },
{
    lemma_counts_are_filters(s);
}

proof fn lemma_counts_are_filters(s: Seq<char>)
    ensures
        letters(s) == s.filter(latin()).len() + s.filter(ideograph()).len(),
        spaces(s) == s.filter(|c: char| c == ' ').len(),
        digits(s) == s.filter(|c: char| '0' <= c && c <= '9').len(),
        total_noise(s) == 3 * s.filter(broken()).len() + s.filter(other()).len(),
    decreases s.len(),
{
    if s.len() > 0 {
        lemma_counts_are_filters(s.drop_last());
        lemma_filter_step(s, latin());
        lemma_filter_step(s, ideograph());
        lemma_filter_step(s, broken());
        lemma_filter_step(s, other());
        lemma_filter_step(s, |c: char| c == ' ');
        lemma_filter_step(s, |c: char| '0' <= c && c <= '9');
    } else {
        assert(s =~= Seq::<char>::empty());
        lemma_filter_none(latin());
        lemma_filter_none(ideograph());
        lemma_filter_none(broken());
        lemma_filter_none(other());
        lemma_filter_none(|c: char| c == ' ');
        lemma_filter_none(|c: char| '0' <= c && c <= '9');
    }
}

/// Words, each with a character behind it that is no letter.
pub open spec fn spelled_out(words: Seq<Seq<char>>, ends: Seq<char>) -> Seq<char> {
    Seq::new(words.len(), |i: int| words[i].push(ends[i])).flatten()
}

/// A word of letters alone.
pub open spec fn is_word(word: Seq<char>) -> bool {
    forall|i: int| 0 <= i < word.len() ==> latin()(#[trigger] word[i])
}

proof fn lemma_word_runs(before: Seq<char>, word: Seq<char>)
    requires
        before.len() == 0 || !latin()(before.last()),
        is_word(word),
    ensures
        last_run(before + word) == word,
        ended_words(before + word) == ended_words(before),
    decreases word.len(),
{
    if word.len() == 0 {
        assert(before + word =~= before);
        assert(last_run(before) =~= word);
    } else {
        assert(latin()(word[word.len() - 1]));
        let front = word.drop_last();
        assert forall|i: int| 0 <= i < front.len() implies latin()(#[trigger] front[i]) by {
            assert(latin()(word[i]));
        }
        lemma_word_runs(before, front);
        assert((before + word).drop_last() =~= before + front);
        assert(word =~= front.push(word.last()));
    }
}

proof fn lemma_spelled_step(words: Seq<Seq<char>>, ends: Seq<char>)
    requires
        words.len() == ends.len() > 0,
    ensures
        spelled_out(words, ends) == (spelled_out(words.drop_last(), ends.drop_last())
            + words.last()).push(ends.last()),
{
    let all = Seq::new(words.len(), |i: int| words[i].push(ends[i]));
    let front = Seq::new(
        words.drop_last().len(),
        |i: int| words.drop_last()[i].push(ends.drop_last()[i]),
    );
    assert(all =~= front.push(words.last().push(ends.last())));
    front.lemma_flatten_push(words.last().push(ends.last()));
    assert(spelled_out(words, ends) =~= (spelled_out(words.drop_last(), ends.drop_last())
        + words.last()).push(ends.last()));
}

/// The words of a text are its runs of letters: of a text made of words, each ended by a
/// character that is no letter, and of a last word that nothing ends, as many count as are common
/// words, in whatever case.
pub proof fn law_words_are_runs_of_letters(
    words: Seq<Seq<char>>,
    ends: Seq<char>,
    last: Seq<char>,
)
    requires
        words.len() == ends.len(),
        forall|i: int| 0 <= i < words.len() ==> is_word(#[trigger] words[i]),
        forall|i: int| 0 <= i < ends.len() ==> !latin()(#[trigger] ends[i]),
        is_word(last),
    ensures
        word_hits(spelled_out(words, ends) + last) == words.push(last).filter(
            |word: Seq<char>| is_common_word(word.map_values(|c: char| ascii_lower(c))),
        ).len(),
{
    reveal(Seq::filter);
    lemma_words(words, ends);
    let s = spelled_out(words, ends);
    assert(words.push(last).drop_last() =~= words);
    if words.len() > 0 {
        lemma_spelled_step(words, ends);
        assert(!latin()(ends[ends.len() - 1]));
    } else {
        assert(Seq::new(words.len(), |i: int| words[i].push(ends[i])) =~= Seq::<
            Seq<char>,
        >::empty());
    }
    lemma_word_runs(s, last);
}

proof fn lemma_words(words: Seq<Seq<char>>, ends: Seq<char>)
    requires
        words.len() == ends.len(),
        forall|i: int| 0 <= i < words.len() ==> is_word(#[trigger] words[i]),
        forall|i: int| 0 <= i < ends.len() ==> !latin()(#[trigger] ends[i]),
    ensures
        ended_words(spelled_out(words, ends)) == words.filter(
            |word: Seq<char>| is_common_word(word.map_values(|c: char| ascii_lower(c))),
        ).len(),
    decreases words.len(),
{
    reveal(Seq::filter);
    if words.len() > 0 {
        let before = spelled_out(words.drop_last(), ends.drop_last());
        assert forall|i: int| 0 <= i < words.drop_last().len() implies is_word(
            #[trigger] words.drop_last()[i],
        ) by {
            assert(is_word(words[i]));
        }
        assert forall|i: int| 0 <= i < ends.drop_last().len() implies !latin()(
            #[trigger] ends.drop_last()[i],
        ) by {
            assert(!latin()(ends[i]));
        }
        lemma_words(words.drop_last(), ends.drop_last());
        lemma_spelled_step(words, ends);
        if words.len() > 1 {
            lemma_spelled_step(words.drop_last(), ends.drop_last());
            assert(!latin()(ends[ends.len() - 2]));
        } else {
            assert(Seq::new(
                words.drop_last().len(),
                |i: int| words.drop_last()[i].push(ends.drop_last()[i]),
            ) =~= Seq::<Seq<char>>::empty());
        }
        assert(is_word(words[words.len() - 1]));
        assert(!latin()(ends[ends.len() - 1]));
        lemma_word_runs(before, words.last());
        let s = spelled_out(words, ends);
        assert(s.drop_last() =~= before + words.last());
    } else {
        assert(Seq::new(words.len(), |i: int| words[i].push(ends[i])) =~= Seq::<
            Seq<char>,
        >::empty());
    }
}

/// The common words are these, and none of them is empty.
pub proof fn law_common_words(word: Seq<char>)
    ensures
        is_common_word(word) <==> seq![
            "the"@,
            "and"@,
            "of"@,
            "to"@,
            "in"@,
            "a"@,
            "is"@,
            "that"@,
            "for"@,
            "with"@,
            "on"@,
            "as"@,
            "by"@,
            "from"@,
            "this"@,
            "be"@,
            "are"@,
            "at"@,
            "or"@,
            "not"@,
            "it"@,
            "our"@,
        ].contains(word),
        is_common_word(word) ==> word.len() > 0,
{
    reveal_strlit("the");
    reveal_strlit("and");
    reveal_strlit("of");
    reveal_strlit("to");
    reveal_strlit("in");
    reveal_strlit("a");
    reveal_strlit("is");
    reveal_strlit("that");
    reveal_strlit("for");
    reveal_strlit("with");
    reveal_strlit("on");
    reveal_strlit("as");
    reveal_strlit("by");
    reveal_strlit("from");
    reveal_strlit("this");
    reveal_strlit("be");
    reveal_strlit("are");
    reveal_strlit("at");
    reveal_strlit("or");
    reveal_strlit("not");
    reveal_strlit("it");
    reveal_strlit("our");
    let all = seq![
        "the"@,
        "and"@,
        "of"@,
        "to"@,
        "in"@,
        "a"@,
        "is"@,
        "that"@,
        "for"@,
        "with"@,
        "on"@,
        "as"@,
        "by"@,
        "from"@,
        "this"@,
        "be"@,
        "are"@,
        "at"@,
        "or"@,
        "not"@,
        "it"@,
        "our"@,
    ];
    assert(all[0] == "the"@ && all[1] == "and"@ && all[2] == "of"@ && all[3] == "to"@ && all[4]
        == "in"@ && all[5] == "a"@ && all[6] == "is"@ && all[7] == "that"@ && all[8] == "for"@
        && all[9] == "with"@ && all[10] == "on"@ && all[11] == "as"@ && all[12] == "by"@ && all[13]
        == "from"@ && all[14] == "this"@ && all[15] == "be"@ && all[16] == "are"@ && all[17]
        == "at"@ && all[18] == "or"@ && all[19] == "not"@ && all[20] == "it"@ && all[21]
        == "our"@);
}

/// One more operand adds its texts and its bytes to whatever was seen before, and changes no choice
/// that is made.
pub proof fn law_one_more_operand(
    seen: DecisionView,
    primary: Seq<char>,
    remapped: Seq<char>,
    bytes: usize,
)
    ensures
        ({
            let next = next_decision(seen, primary, remapped, bytes);
            &&& next.primary == seen.primary + primary
            &&& next.remapped == seen.remapped + remapped
            &&& seen.sample_bytes + bytes <= usize::MAX ==> next.sample_bytes == seen.sample_bytes
                + bytes
            &&& seen.sample_bytes + bytes > usize::MAX ==> next.sample_bytes == usize::MAX
            &&& seen.choice is Some ==> next.choice == seen.choice
            &&& seen.choice is None && seen.sample_bytes + bytes < 240 ==> next.choice is None
            &&& seen.choice is None && seen.sample_bytes + bytes >= 240 ==> (next.choice == Some(
                CMapChoice::Remapped,
            ) <==> text_score(seen.remapped + remapped) - text_score(seen.primary + primary) > 5)
                && next.choice is Some
        }),
{
}

}
