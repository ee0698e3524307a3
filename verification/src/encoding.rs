use crate::packing::{
    all_codes, lemma_unpack_codes, lemma_unpack_len_u16, lemma_unpack_pack, unpack,
};
use crate::scalars::{U16, U54};
use vstd::prelude::*;

verus! {

/// The feedback a single letter can carry.
#[allow(non_camel_case_types)]
#[derive(Debug, PartialEq, Eq, Clone, Copy, Structural)]
pub enum LetterState {
    /// The letter has not been guessed yet.
    WHITE,
    /// The letter is in the word but in the wrong position.
    YELLOW,
    /// The letter is not in the word.
    BLACK,
    /// The letter is in the correct position.
    GREEN,
}

/// Whether `code` is one of the four two-bit letter codes.
pub open spec fn is_code(code: int) -> bool {
    0 <= code <= 3
}

/// Whether `code` is the code of an actual guess outcome, that is, not the
/// code of a letter that was never guessed.
pub open spec fn is_outcome(code: int) -> bool {
    1 <= code <= 3
}

/// Where a code stands in the order by which two observations of one letter
/// are settled: green over yellow over black, and all of them over white.
pub open spec fn rank(code: int) -> int {
    if code == 3 {
        3
    } else if code == 1 {
        2
    } else if code == 2 {
        1
    } else {
        0
    }
}

/// The code that two observations of one letter settle on: the one of
/// higher rank.
pub open spec fn join_codes(a: u8, b: u8) -> u8 {
    if rank(a as int) >= rank(b as int) {
        a
    } else {
        b
    }
}

impl LetterState {
    /// The two-bit code of a state.
    pub open spec fn code(self) -> u8 {
        match self {
            LetterState::WHITE => 0,
            LetterState::YELLOW => 1,
            LetterState::BLACK => 2,
            LetterState::GREEN => 3,
        }
    }

    /// The state that a two-bit code stands for.
    pub open spec fn of_code(code: int) -> LetterState
        recommends
            is_code(code),
    {
        if code == 0 {
            LetterState::WHITE
        } else if code == 1 {
            LetterState::YELLOW
        } else if code == 2 {
            LetterState::BLACK
        } else {
            LetterState::GREEN
        }
    }

    /// Decodes a state from its code.
    pub fn from_u8(value: u8) -> (state: LetterState)
        requires
            is_code(value as int),
        ensures
            state == LetterState::of_code(value as int),
            state.code() == value,
    {
        if value == 0 {
            LetterState::WHITE
        } else if value == 1 {
            LetterState::YELLOW
        } else if value == 2 {
            LetterState::BLACK
        } else {
            LetterState::GREEN
        }
    }

    /// Decodes a state from its code.
    pub fn from_u16(value: u16) -> (state: LetterState)
        requires
            is_code(value as int),
        ensures
            state == LetterState::of_code(value as int),
            state.code() == value,
    {
        if value == 0 {
            LetterState::WHITE
        } else if value == 1 {
            LetterState::YELLOW
        } else if value == 2 {
            LetterState::BLACK
        } else {
            LetterState::GREEN
        }
    }

    /// Decodes a state from its code.
    pub fn from_i32(value: i32) -> (state: LetterState)
        requires
            is_code(value as int),
        ensures
            state == LetterState::of_code(value as int),
            state.code() == value,
    {
        if value == 0 {
            LetterState::WHITE
        } else if value == 1 {
            LetterState::YELLOW
        } else if value == 2 {
            LetterState::BLACK
        } else {
            LetterState::GREEN
        }
    }

    /// Decodes a state from its code.
    pub fn from_u64(value: u64) -> (state: LetterState)
        requires
            is_code(value as int),
        ensures
            state == LetterState::of_code(value as int),
            state.code() == value,
    {
        if value == 0 {
            LetterState::WHITE
        } else if value == 1 {
            LetterState::YELLOW
        } else if value == 2 {
            LetterState::BLACK
        } else {
            LetterState::GREEN
        }
    }

    /// The code of the state, or `None` where `value` is no code.
    pub fn try_from_u8(value: u8) -> (state: Option<LetterState>)
        ensures
            state == if is_code(value as int) {
                Some(LetterState::of_code(value as int))
            } else {
                None
            },
    {
        if value <= 3 {
            Some(LetterState::from_u8(value))
        } else {
            None
        }
    }

    /// The code of the state.
    pub fn to_u8(self) -> (code: u8)
        ensures
            code == self.code(),
    {
        match self {
            LetterState::WHITE => 0,
            LetterState::YELLOW => 1,
            LetterState::BLACK => 2,
            LetterState::GREEN => 3,
        }
    }

    /// The code of the state.
    pub fn to_u16(self) -> (code: u16)
        ensures
            code == self.code(),
    {
        match self {
            LetterState::WHITE => 0,
            LetterState::YELLOW => 1,
            LetterState::BLACK => 2,
            LetterState::GREEN => 3,
        }
    }

    /// The code of the state.
    pub fn to_i32(self) -> (code: i32)
        ensures
            code == self.code(),
    {
        match self {
            LetterState::WHITE => 0,
            LetterState::YELLOW => 1,
            LetterState::BLACK => 2,
            LetterState::GREEN => 3,
        }
    }

    /// The code of the state.
    pub fn to_u64(self) -> (code: u64)
        ensures
            code == self.code(),
    {
        match self {
            LetterState::WHITE => 0,
            LetterState::YELLOW => 1,
            LetterState::BLACK => 2,
            LetterState::GREEN => 3,
        }
    }
}

/// The state that two observations of one letter settle on: the one of
/// higher rank.
pub open spec fn combined(a: LetterState, b: LetterState) -> LetterState {
    LetterState::of_code(join_codes(a.code(), b.code()) as int)
}

/// Settles two observations of one letter within a guess: green wins over
/// yellow, yellow over black. Neither observation may be white.
pub fn combine_guess_letter_states(state1: LetterState, state2: LetterState) -> (kept: LetterState)
    requires
        state1 != LetterState::WHITE,
        state2 != LetterState::WHITE,
    ensures
        kept == combined(state1, state2),
        kept == state1 || kept == state2,
        kept != LetterState::WHITE,
{
    match (state1, state2) {
        (LetterState::GREEN, _) => LetterState::GREEN,
        (_, LetterState::GREEN) => LetterState::GREEN,
        (LetterState::YELLOW, _) => LetterState::YELLOW,
        (_, LetterState::YELLOW) => LetterState::YELLOW,
        _ => LetterState::BLACK,
    }
}

/// The same settlement on the codes themselves. Neither code may be the
/// code of white.
pub fn combine_guess_letter_states_encoded(state1: u8, state2: u8) -> (kept: u8)
    requires
        is_outcome(state1 as int),
        is_outcome(state2 as int),
    ensures
        kept == join_codes(state1, state2),
        kept == combined(
            LetterState::of_code(state1 as int),
            LetterState::of_code(state2 as int),
        ).code(),
        is_outcome(kept as int),
{
    if state1 == 3 || state2 == 3 {
        3
    } else if state1 == 1 || state2 == 1 {
        1
    } else {
        2
    }
}

/// Settling is commutative: the order of the two observations is of no
/// account.
pub proof fn lemma_combine_commutative(a: LetterState, b: LetterState)
    requires
        a != LetterState::WHITE,
        b != LetterState::WHITE,
    ensures
        combined(a, b) == combined(b, a),
{
}

/// Settling is idempotent: an observation settled with itself stays.
pub proof fn lemma_combine_idempotent(a: LetterState)
    requires
        a != LetterState::WHITE,
    ensures
        combined(a, a) == a,
{
}

/// Settling is associative: three observations settle on the same state
/// however they are grouped.
pub proof fn lemma_combine_associative(a: LetterState, b: LetterState, c: LetterState)
    requires
        a != LetterState::WHITE,
        b != LetterState::WHITE,
        c != LetterState::WHITE,
    ensures
        combined(combined(a, b), c) == combined(a, combined(b, c)),
{
}

/// On codes, settling is commutative, idempotent and associative as it is on
/// states, and the code of white is neutral.
pub proof fn lemma_join_codes_laws(a: u8, b: u8, c: u8)
    requires
        is_code(a as int),
        is_code(b as int),
        is_code(c as int),
    ensures
        join_codes(a, b) == join_codes(b, a),
        join_codes(a, a) == a,
        join_codes(join_codes(a, b), c) == join_codes(a, join_codes(b, c)),
        join_codes(a, 0) == a,
        join_codes(0, a) == a,
        is_code(join_codes(a, b) as int),
        is_outcome(a as int) || is_outcome(b as int) ==> is_outcome(join_codes(a, b) as int),
{
}

/// The codes of a guess in the order of its letters. The packed integer
/// holds them the other way round: the code of the last letter lowest.
pub open spec fn codes_in_word_order(states: u16) -> Seq<u8> {
    unpack(states as nat).reverse()
}

/// Whether `states` holds one code for each letter of `word`, none of them
/// the code of white. Such a word has eight letters at most.
pub open spec fn is_guess(word: Seq<char>, states: u16) -> bool {
    let codes = unpack(states as nat);
    &&& codes.len() == word.len()
    &&& forall|i: int| 0 <= i < codes.len() ==> #[trigger] codes[i] != 0
}

/// The letters of a word, each once, in the order in which they first
/// occur.
pub open spec fn distinct_letters(word: Seq<char>) -> Seq<char>
    decreases word.len(),
{
    if word.len() == 0 {
        Seq::empty()
    } else {
        let before = distinct_letters(word.drop_last());
        if before.contains(word.last()) {
            before
        } else {
            before.push(word.last())
        }
    }
}

/// The code that all the occurrences of `letter` in `word` settle on, where
/// `codes` holds the code of each position; the code of white where the
/// letter does not occur.
pub open spec fn resolved(word: Seq<char>, codes: Seq<u8>, letter: char) -> u8
    decreases word.len(),
{
    if word.len() == 0 || codes.len() != word.len() {
        0
    } else {
        let before = resolved(word.drop_last(), codes.drop_last(), letter);
        if word.last() == letter {
            join_codes(before, codes.last())
        } else {
            before
        }
    }
}

/// The settled code of each distinct letter of a word, in the order of
/// `distinct_letters`.
pub open spec fn resolved_codes(word: Seq<char>, codes: Seq<u8>) -> Seq<u8> {
    Seq::new(
        distinct_letters(word).len(),
        |j: int| resolved(word, codes, distinct_letters(word)[j]),
    )
}

/// The distinct letters of a word are its letters, and none of them comes
/// twice.
pub proof fn lemma_distinct_letters(word: Seq<char>)
    ensures
        forall|c: char| distinct_letters(word).contains(c) <==> word.contains(c),
        forall|i: int, j: int|
            0 <= i < j < distinct_letters(word).len() ==> distinct_letters(word)[i]
                != distinct_letters(word)[j],
        distinct_letters(word).len() <= word.len(),
    decreases word.len(),
{
    if word.len() > 0 {
        let front = word.drop_last();
        let before = distinct_letters(front);
        let all = distinct_letters(word);
        lemma_distinct_letters(front);
        assert forall|c: char| all.contains(c) <==> word.contains(c) by {
            if word.contains(c) {
                let i = choose|i: int| 0 <= i < word.len() && word[i] == c;
                if i < word.len() - 1 {
                    assert(front[i] == c);
                    assert(front.contains(c));
                    assert(before.contains(c));
                    let j = choose|j: int| 0 <= j < before.len() && before[j] == c;
                    assert(all[j] == c);
                } else if !before.contains(c) {
                    assert(all[before.len() as int] == c);
                } else {
                    let j = choose|j: int| 0 <= j < before.len() && before[j] == c;
                    assert(all[j] == c);
                }
            }
            if all.contains(c) {
                let j = choose|j: int| 0 <= j < all.len() && all[j] == c;
                if j < before.len() {
                    assert(before[j] == c);
                    assert(before.contains(c));
                    assert(front.contains(c));
                    let i = choose|i: int| 0 <= i < front.len() && front[i] == c;
                    assert(word[i] == c);
                } else {
                    assert(word[word.len() - 1] == c);
                }
            }
        }
        assert forall|i: int, j: int| 0 <= i < j < all.len() implies all[i] != all[j] by {
            if j < before.len() {
                assert(before[i] != before[j]);
            } else {
                assert(before[i] == all[i]);
                assert(before.contains(all[i]));
            }
        }
    }
}

/// The settled code of a letter is the code of one of its occurrences, and
/// no occurrence has a code of higher rank. A letter that does not occur
/// has the code of white.
pub proof fn lemma_resolved_is_highest(word: Seq<char>, codes: Seq<u8>, letter: char)
    requires
        codes.len() == word.len(),
        all_codes(codes),
    ensures
        word.contains(letter) ==> exists|i: int|
            0 <= i < word.len() && word[i] == letter && #[trigger] codes[i] == resolved(
                word,
                codes,
                letter,
            ),
        forall|i: int|
            0 <= i < word.len() && word[i] == letter ==> rank(#[trigger] codes[i] as int) <= rank(
                resolved(word, codes, letter) as int,
            ),
        !word.contains(letter) ==> resolved(word, codes, letter) == 0,
    decreases word.len(),
{
    if word.len() > 0 {
        let front = word.drop_last();
        let front_codes = codes.drop_last();
        let last = word.len() - 1;
        assert forall|i: int| 0 <= i < front_codes.len() implies is_code(
            #[trigger] front_codes[i] as int,
        ) by {
            assert(front_codes[i] == codes[i]);
        }
        assert(is_code(codes[last] as int));
        lemma_resolved_is_highest(front, front_codes, letter);
        let before = resolved(front, front_codes, letter);
        let now = resolved(word, codes, letter);
        assert forall|i: int| 0 <= i < word.len() && word[i] == letter implies rank(
            #[trigger] codes[i] as int,
        ) <= rank(now as int) by {
            if i < last {
                assert(front[i] == letter);
                assert(front_codes[i] == codes[i]);
            }
        }
        if word.contains(letter) {
            if now == codes[last] && word[last] == letter {
                assert(word[last] == letter && codes[last] == now);
            } else {
                assert(now == before);
                if !front.contains(letter) {
                    let i = choose|i: int| 0 <= i < word.len() && word[i] == letter;
                    if i < last {
                        assert(front[i] == letter);
                    }
                    assert(false);
                }
                let i = choose|i: int|
                    0 <= i < front.len() && front[i] == letter && #[trigger] front_codes[i]
                        == before;
                assert(word[i] == letter && codes[i] == now);
            }
        } else {
            if front.contains(letter) {
                let i = choose|i: int| 0 <= i < front.len() && front[i] == letter;
                assert(word[i] == letter);
            }
            assert(word[last] != letter);
        }
    }
}

/// Where no position holds the code of white, the settled code of a letter
/// that occurs is no code of white either.
pub proof fn lemma_resolved_is_outcome(word: Seq<char>, codes: Seq<u8>, letter: char)
    requires
        codes.len() == word.len(),
        forall|i: int| 0 <= i < codes.len() ==> is_outcome(#[trigger] codes[i] as int),
        word.contains(letter),
    ensures
        is_outcome(resolved(word, codes, letter) as int),
{
    lemma_resolved_is_highest(word, codes, letter);
}

/// The settled code of a letter is a two-bit code, where the codes of the
/// positions are.
pub proof fn lemma_resolved_is_code(word: Seq<char>, codes: Seq<u8>, letter: char)
    requires
        codes.len() == word.len(),
        all_codes(codes),
    ensures
        is_code(resolved(word, codes, letter) as int),
{
    lemma_resolved_is_highest(word, codes, letter);
    if word.contains(letter) {
        let i = choose|i: int|
            0 <= i < word.len() && word[i] == letter && #[trigger] codes[i] == resolved(
                word,
                codes,
                letter,
            );
        assert(is_code(codes[i] as int));
    }
}

/// Whether `normal` is what a guess comes to once each of its letters
/// stands once, with the code that its occurrences settle on: the letters
/// in the order of their first occurrence, and the codes packed in that
/// same order, the first letter's code lowest.
pub open spec fn is_normal_form(word: Seq<char>, states: u16, normal: (Seq<char>, u16)) -> bool {
    &&& normal.0 == distinct_letters(word)
    &&& unpack(normal.1 as nat) == resolved_codes(word, codes_in_word_order(states))
}

/// Settles the codes of the letters that a guess holds more than once, so
/// that each letter stands once.
pub fn prepare_guess_for_encoding(guess: &String, states: &U16) -> (normal: (String, U16))
    requires
        is_guess(guess@, states.value()),
    ensures
        is_normal_form(guess@, states.value(), (normal.0@, normal.1.value())),
{
    let packed = states.to_codes();
    let n: usize = guess.as_str().unicode_len();
    let ghost word = guess@;
    let ghost order = codes_in_word_order(states.value());
    let mut letters: Vec<char> = Vec::new();
    let mut text = String::new();
    let mut kept: Vec<u8> = Vec::new();
    let mut i: usize = 0;
    proof {
        assert(word.take(0) =~= Seq::<char>::empty());
    }
    while i < n
        invariant
            i <= n == word.len() <= 8,
            text@ == letters@,
            packed@ == unpack(states.value() as nat),
            packed@.len() == n,
            order == packed@.reverse(),
            forall|k: int| 0 <= k < n ==> is_outcome(#[trigger] packed@[k] as int),
            letters@ == distinct_letters(word.take(i as int)),
            kept@.len() == letters@.len(),
            forall|j: int|
                0 <= j < letters@.len() ==> #[trigger] kept@[j] == resolved(
                    word.take(i as int),
                    order.take(i as int),
                    letters@[j],
                ),
            word == guess@,
        decreases n - i,
    {
        let letter: char = guess.as_str().get_char(i);
        let code: u8 = packed[n - 1 - i];
        let ghost front = word.take(i as int);
        let ghost front_codes = order.take(i as int);
        let ghost next = word.take(i as int + 1);
        let ghost next_codes = order.take(i as int + 1);
        proof {
            assert(next.drop_last() =~= front);
            assert(next_codes.drop_last() =~= front_codes);
            assert(next.last() == letter);
            assert(next_codes.last() == code);
            lemma_distinct_letters(front);
            assert forall|k: int| 0 <= k < front_codes.len() implies is_outcome(
                #[trigger] front_codes[k] as int,
            ) by {
                assert(front_codes[k] == packed@[n - 1 - k]);
            }
        }
        let mut j: usize = 0;
        while j < letters.len() && letters[j] != letter
            invariant
                j <= letters@.len(),
                forall|k: int| 0 <= k < j ==> letters@[k] != letter,
            decreases letters@.len() - j,
        {
            j = j + 1;
        }
        if j < letters.len() {
            proof {
                assert(letters@.contains(letter));
                assert(front.contains(letter));
                lemma_resolved_is_outcome(front, front_codes, letter);
            }
            let settled = combine_guess_letter_states_encoded(kept[j], code);
            kept.set(j, settled);
        } else {
            proof {
                assert(!letters@.contains(letter));
                lemma_resolved_is_highest(front, front_codes, letter);
                assert(word.subrange(i as int, i as int + 1) =~= seq![letter]);
                assert(letters@ + seq![letter] =~= letters@.push(letter));
            }
            letters.push(letter);
            text.append(guess.as_str().substring_char(i, i + 1));
            kept.push(code);
        }
        proof {
            assert(letters@ =~= distinct_letters(next));
        }
        i = i + 1;
    }
    proof {
        assert(word.take(n as int) =~= word);
        assert(order.take(n as int) =~= order);
        lemma_distinct_letters(word);
        assert(kept@ =~= resolved_codes(word, order));
        assert forall|j: int| 0 <= j < kept@.len() implies is_outcome(#[trigger] kept@[j] as int) by {
            assert(distinct_letters(word).contains(letters@[j]));
            assert forall|k: int| 0 <= k < order.len() implies is_outcome(
                #[trigger] order[k] as int,
            ) by {
                assert(order[k] == packed@[n - 1 - k]);
            }
            lemma_resolved_is_outcome(word, order, letters@[j]);
        }
        assert(all_codes(kept@));
        lemma_unpack_pack(kept@);
    }
    let packed_codes = U16::from_codes(kept);
    (text, packed_codes)
}

/// Whether `letter` is one of the letters that a pool has a slot for.
pub open spec fn is_letter(letter: char) -> bool {
    'a' <= letter <= 'z'
}

/// The letter of the slot with the index `k`: `a` for 0, `z` for 25.
pub open spec fn letter_at(k: int) -> char {
    (k + 'a' as int) as char
}

/// What the slot with the index `k` holds in a pool: the two bits at the
/// bit position `2 * k`.
pub open spec fn slot(pool: u64, k: int) -> u64 {
    (pool >> ((2 * k) as u64)) & 3
}

/// Whether `after` is the pool `before` with a guess merged into it: each
/// letter's slot holds what it held, with the bits of the letter's settled
/// code set as well, and the bits above the slots are as they were.
pub open spec fn is_merge(before: u64, word: Seq<char>, states: u16, after: u64) -> bool {
    &&& forall|k: int|
        0 <= k < 26 ==> #[trigger] slot(after, k) == slot(before, k) | (resolved(
            word,
            codes_in_word_order(states),
            letter_at(k),
        ) as u64)
    &&& after >> 52 == before >> 52
}

/// Setting a code at an even bit position of a pool changes the slot at
/// that position and no other, nor the bits above the slots.
proof fn lemma_slot_after_or(pool: u64, code: u64, p: u64, q: u64)
    by (bit_vector)
    requires
        code <= 3,
        p < 52,
        q < 52,
        p % 2 == 0,
        q % 2 == 0,
    ensures
        ((pool | (code << p)) >> q) & 3 == if q == p {
            ((pool >> q) & 3) | code
        } else {
            (pool >> q) & 3
        },
        (pool | (code << p)) >> 52 == pool >> 52,
        code << p <= 0x3F_FFFF_FFFF_FFFF,
        ((pool >> q) & 3) | 0 == (pool >> q) & 3,
{
}

impl U54 {
    /// Merges a guess into the pool: the guess is brought to the form in
    /// which each letter stands once, and each letter's settled code is set
    /// in the letter's slot. The guess holds small letters only.
    pub fn encode_guess_results(&mut self, guess: &String, states: &U16)
        requires
            is_guess(guess@, states.value()),
            forall|i: int| 0 <= i < guess@.len() ==> is_letter(#[trigger] guess@[i]),
        ensures
            is_merge(old(self).value(), guess@, states.value(), final(self).value()),
    {
        let ghost word = guess@;
        let ghost order = codes_in_word_order(states.value());
        let ghost before = self.value();
        let (letters, new_states) = prepare_guess_for_encoding(guess, states);
        let codes = new_states.to_codes();
        let m: usize = letters.as_str().unicode_len();
        proof {
            lemma_distinct_letters(word);
            assert forall|k: int| 0 <= k < 26 implies #[trigger] slot(before, k) == slot(before, k)
                | 0 by {
                lemma_slot_after_or(before, 0, 0, (2 * k) as u64);
            }
            assert(letters@.take(0) =~= Seq::<char>::empty());
        }
        let mut j: usize = 0;
        while j < m
            invariant
                j <= m == letters@.len(),
                letters@ == distinct_letters(word),
                codes@ == resolved_codes(word, order),
                all_codes(codes@),
                forall|i: int| 0 <= i < word.len() ==> is_letter(#[trigger] word[i]),
                forall|c: char| #[trigger] letters@.contains(c) <==> word.contains(c),
                forall|a: int, b: int| 0 <= a < b < letters@.len() ==> letters@[a] != letters@[b],
                forall|k: int|
                    0 <= k < 26 ==> #[trigger] slot(self.value(), k) == slot(before, k) | (
                    if letters@.take(j as int).contains(letter_at(k)) {
                        resolved(word, order, letter_at(k)) as u64
                    } else {
                        0
                    }),
                self.value() >> 52 == before >> 52,
            decreases m - j,
        {
            let letter: char = letters.as_str().get_char(j);
            let state_value: u64 = codes[j] as u64;
            proof {
                assert(letters@[j as int] == letter);
                assert(letters@.contains(letter));
                assert(word.contains(letter));
                let i = choose|i: int| 0 <= i < word.len() && word[i] == letter;
                assert(is_letter(word[i]));
                assert(is_code(codes@[j as int] as int));
            }
            let letter_value: u8 = (letter as u8) - 97;
            let position: u64 = (letter_value as u64) * 2;
            let ghost pool = self.value();
            let ghost done = letters@.take(j as int);
            let ghost more = letters@.take(j as int + 1);
            proof {
                lemma_slot_after_or(pool, state_value, position, 0);
                assert(letter_at(letter_value as int) == letter);
                assert(!done.contains(letter)) by {
                    if done.contains(letter) {
                        let a = choose|a: int| 0 <= a < done.len() && done[a] == letter;
                        assert(letters@[a] == letters@[j as int]);
                    }
                }
                assert(more[j as int] == letter);
                assert forall|k: int| 0 <= k < 26 implies #[trigger] slot(
                    pool | (state_value << position),
                    k,
                ) == slot(before, k) | (if more.contains(letter_at(k)) {
                    resolved(word, order, letter_at(k)) as u64
                } else {
                    0
                }) by {
                    lemma_slot_after_or(pool, state_value, position, (2 * k) as u64);
                    lemma_slot_after_or(before, 0, 0, (2 * k) as u64);
                    if k == letter_value {
                        assert(more.contains(letter_at(k)));
                        assert(!done.contains(letter_at(k)));
                        assert(slot(pool, k) == slot(before, k));
                        assert(codes@[j as int] == resolved(word, order, letters@[j as int]));
                        assert(slot(pool | (state_value << position), k) == slot(pool, k)
                            | state_value);
                    } else {
                        assert(slot(pool | (state_value << position), k) == slot(pool, k));
                        assert(letter_at(k) != letter);
                        if more.contains(letter_at(k)) {
                            let a = choose|a: int| 0 <= a < more.len() && more[a] == letter_at(k);
                            assert(done[a] == letter_at(k));
                        }
                        if done.contains(letter_at(k)) {
                            let a = choose|a: int| 0 <= a < done.len() && done[a] == letter_at(k);
                            assert(more[a] == letter_at(k));
                        }
                    }
                }
            }
            self.bitor_assign(state_value << position);
            j = j + 1;
        }
        proof {
            assert(letters@.take(m as int) =~= letters@);
            assert forall|k: int| 0 <= k < 26 implies #[trigger] slot(self.value(), k) == slot(
                before,
                k,
            ) | (resolved(word, order, letter_at(k)) as u64) by {
                if !letters@.contains(letter_at(k)) {
                    assert forall|i: int| 0 <= i < order.len() implies is_code(
                        #[trigger] order[i] as int,
                    ) by {
                        lemma_unpack_codes(states.value() as nat);
                        assert(order[i] == unpack(states.value() as nat)[order.len() - 1 - i]);
                    }
                    lemma_resolved_is_highest(word, order, letter_at(k));
                }
            }
        }
    }
}

/// Whether a guess can be merged into a pool: `states` holds one code for
/// each letter, none of them the code of white, and every letter is a small
/// letter from `a` to `z`.
pub open spec fn is_pool_guess(word: Seq<char>, states: u16) -> bool {
    &&& is_guess(word, states)
    &&& forall|i: int| 0 <= i < word.len() ==> is_letter(#[trigger] word[i])
}

/// Tells whether a guess can be merged into a pool.
pub fn accepts_guess(guess: &String, states: &U16) -> (ok: bool)
    ensures
        ok == is_pool_guess(guess@, states.value()),
{
    let codes = states.to_codes();
    let n: usize = guess.as_str().unicode_len();
    if codes.len() != n {
        return false;
    }
    let mut i: usize = 0;
    while i < n
        invariant
            i <= n == guess@.len() == codes@.len(),
            codes@ == unpack(states.value() as nat),
            forall|k: int| 0 <= k < i ==> #[trigger] codes@[k] != 0,
            forall|k: int| 0 <= k < i ==> is_letter(#[trigger] guess@[k]),
        decreases n - i,
    {
        let letter: char = guess.as_str().get_char(i);
        if codes[i] == 0 || letter < 'a' || letter > 'z' {
            return false;
        }
        i = i + 1;
    }
    true
}

/// Two pools that agree in every slot and in the bits above the slots are
/// the same pool.
pub proof fn lemma_pool_by_slots(x: u64, y: u64)
    requires
        forall|k: int| 0 <= k < 26 ==> #[trigger] slot(x, k) == slot(y, k),
        x >> 52 == y >> 52,
    ensures
        x == y,
{
    lemma_same_from(x, y, 0);
    assert(x >> 0 == x && y >> 0 == y) by (bit_vector);
}

proof fn lemma_same_from(x: u64, y: u64, k: int)
    requires
        0 <= k <= 26,
        forall|j: int| 0 <= j < 26 ==> #[trigger] slot(x, j) == slot(y, j),
        x >> 52 == y >> 52,
    ensures
        x >> ((2 * k) as u64) == y >> ((2 * k) as u64),
    decreases 26 - k,
{
    if k < 26 {
        lemma_same_from(x, y, k + 1);
        assert(slot(x, k) == slot(y, k));
        lemma_same_one_lower(x, y, (2 * k) as u64, (2 * k + 2) as u64);
    }
}

proof fn lemma_same_one_lower(x: u64, y: u64, q: u64, p: u64)
    by (bit_vector)
    requires
        p == q + 2,
        p <= 52,
        x >> p == y >> p,
        (x >> q) & 3 == (y >> q) & 3,
    ensures
        x >> q == y >> q,
{
}

proof fn lemma_or_of_slots(a: u64, r: u64, t: u64)
    by (bit_vector)
    requires
        a <= 3,
        r <= 3,
        t <= 3,
    ensures
        (a | r) | r == a | r,
        a | r >= a,
        a | r <= 3,
        0 | r == r,
        r | 0 == r,
        (a | r) | t == (a | t) | r,
{
}

proof fn lemma_slot_bound(pool: u64, q: u64)
    by (bit_vector)
    requires
        q < 64,
    ensures
        (pool >> q) & 3 <= 3,
        (0u64 >> q) & 3 == 0,
{
}

/// The codes of a guess in the order of its letters are two-bit codes, one
/// for each letter.
pub proof fn lemma_codes_in_word_order(word: Seq<char>, states: u16)
    requires
        is_guess(word, states),
    ensures
        codes_in_word_order(states).len() == word.len(),
        word.len() <= 8,
        forall|i: int|
            0 <= i < word.len() ==> is_outcome(#[trigger] codes_in_word_order(states)[i] as int),
        all_codes(codes_in_word_order(states)),
{
    let codes = unpack(states as nat);
    let order = codes_in_word_order(states);
    lemma_unpack_codes(states as nat);
    lemma_unpack_len_u16(states);
    assert forall|i: int| 0 <= i < word.len() implies is_outcome(#[trigger] order[i] as int) by {
        assert(order[i] == codes[codes.len() - 1 - i]);
        assert(is_code(codes[codes.len() - 1 - i] as int));
    }
}

/// Merging is a function of the pool and the guess: two pools that are both
/// the outcome of one merge are the same.
pub proof fn lemma_merge_unique(
    before: u64,
    word: Seq<char>,
    states: u16,
    after: u64,
    other: u64,
)
    requires
        is_merge(before, word, states, after),
        is_merge(before, word, states, other),
    ensures
        after == other,
{
    assert forall|k: int| 0 <= k < 26 implies #[trigger] slot(after, k) == slot(other, k) by {
        assert(slot(other, k) == slot(before, k) | (resolved(
            word,
            codes_in_word_order(states),
            letter_at(k),
        ) as u64));
    }
    lemma_pool_by_slots(after, other);
}

/// Merging is idempotent: a guess that is merged a second time leaves the
/// pool as the first merge left it.
pub proof fn lemma_merge_idempotent(
    before: u64,
    word: Seq<char>,
    states: u16,
    once: u64,
    twice: u64,
)
    requires
        is_guess(word, states),
        is_merge(before, word, states, once),
        is_merge(once, word, states, twice),
    ensures
        twice == once,
{
    let order = codes_in_word_order(states);
    lemma_codes_in_word_order(word, states);
    assert forall|k: int| 0 <= k < 26 implies #[trigger] slot(twice, k) == slot(once, k) by {
        let r = resolved(word, order, letter_at(k));
        lemma_resolved_is_code(word, order, letter_at(k));
        assert(slot(once, k) == slot(before, k) | (r as u64));
        lemma_slot_bound(before, (2 * k) as u64);
        lemma_or_of_slots(slot(before, k), r as u64, 0);
    }
    lemma_pool_by_slots(twice, once);
}

/// Merging never lowers a slot: each slot holds afterwards no less than it
/// held, and still a two-bit code.
pub proof fn lemma_merge_never_lowers(before: u64, word: Seq<char>, states: u16, after: u64)
    requires
        is_guess(word, states),
        is_merge(before, word, states, after),
    ensures
        forall|k: int| 0 <= k < 26 ==> slot(before, k) <= #[trigger] slot(after, k) <= 3,
{
    let order = codes_in_word_order(states);
    lemma_codes_in_word_order(word, states);
    assert forall|k: int| 0 <= k < 26 implies slot(before, k) <= #[trigger] slot(after, k)
        <= 3 by {
        let r = resolved(word, order, letter_at(k));
        lemma_resolved_is_code(word, order, letter_at(k));
        lemma_slot_bound(before, (2 * k) as u64);
        lemma_or_of_slots(slot(before, k), r as u64, 0);
    }
}

/// Two guesses that share no letter, merged one after the other into an
/// empty pool, leave in the slot of each letter the code that the letter's
/// own guess settles on, and leave the slot of a letter in neither guess
/// empty.
pub proof fn lemma_merge_of_disjoint_guesses(
    first: Seq<char>,
    first_states: u16,
    second: Seq<char>,
    second_states: u16,
    once: u64,
    twice: u64,
)
    requires
        is_guess(first, first_states),
        is_guess(second, second_states),
        forall|c: char| !(first.contains(c) && second.contains(c)),
        is_merge(0, first, first_states, once),
        is_merge(once, second, second_states, twice),
    ensures
        forall|k: int|
            0 <= k < 26 ==> #[trigger] slot(twice, k) == (if first.contains(letter_at(k)) {
                resolved(first, codes_in_word_order(first_states), letter_at(k))
            } else if second.contains(letter_at(k)) {
                resolved(second, codes_in_word_order(second_states), letter_at(k))
            } else {
                0
            }) as u64,
{
    let first_order = codes_in_word_order(first_states);
    let second_order = codes_in_word_order(second_states);
    lemma_codes_in_word_order(first, first_states);
    lemma_codes_in_word_order(second, second_states);
    assert forall|k: int| 0 <= k < 26 implies #[trigger] slot(twice, k) == (if first.contains(
        letter_at(k),
    ) {
        resolved(first, first_order, letter_at(k))
    } else if second.contains(letter_at(k)) {
        resolved(second, second_order, letter_at(k))
    } else {
        0
    }) as u64 by {
        let r1 = resolved(first, first_order, letter_at(k));
        let r2 = resolved(second, second_order, letter_at(k));
        lemma_resolved_is_highest(first, first_order, letter_at(k));
        lemma_resolved_is_highest(second, second_order, letter_at(k));
        lemma_resolved_is_code(first, first_order, letter_at(k));
        lemma_resolved_is_code(second, second_order, letter_at(k));
        assert(slot(once, k) == slot(0, k) | (r1 as u64));
        assert(slot(twice, k) == slot(once, k) | (r2 as u64));
        lemma_slot_bound(0, (2 * k) as u64);
        lemma_or_of_slots(0, r1 as u64, r2 as u64);
        lemma_or_of_slots(r1 as u64, r2 as u64, 0);
    }
}

/// Whether two codes lie on one of the two paths that the knowledge of a
/// letter can take against one target word: never guessed, then absent; or
/// never guessed, then present, then in place.
pub open spec fn on_one_path(a: u8, b: u8) -> bool {
    ||| (a == 0 || a == 2) && (b == 0 || b == 2)
    ||| (a == 0 || a == 1 || a == 3) && (b == 0 || b == 1 || b == 3)
}

/// On one path, setting the bits of a code in a slot settles the two codes:
/// the slot comes to hold the one of higher rank.
pub proof fn lemma_or_settles_on_one_path(a: u8, b: u8)
    requires
        on_one_path(a, b),
    ensures
        a | b == join_codes(a, b),
{
    assert(0u8 | 0u8 == 0u8 && 0u8 | 1u8 == 1u8 && 0u8 | 2u8 == 2u8 && 0u8 | 3u8 == 3u8 && 1u8
        | 0u8 == 1u8 && 1u8 | 1u8 == 1u8 && 1u8 | 3u8 == 3u8 && 2u8 | 0u8 == 2u8 && 2u8 | 2u8
        == 2u8 && 3u8 | 0u8 == 3u8 && 3u8 | 1u8 == 3u8 && 3u8 | 3u8 == 3u8) by (bit_vector);
}

/// A merge settles each slot whose code lies on one path with the code that
/// the guess brings for its letter: the slot comes to hold the one of
/// higher rank. Where the two lie on different paths, the slot comes to
/// hold the code of a letter in place, whatever was observed.
pub proof fn lemma_merge_settles(before: u64, word: Seq<char>, states: u16, after: u64, k: int)
    requires
        0 <= k < 26,
        is_guess(word, states),
        is_merge(before, word, states, after),
    ensures
        ({
            let held = slot(before, k) as u8;
            let brought = resolved(word, codes_in_word_order(states), letter_at(k));
            slot(after, k) == (if on_one_path(held, brought) {
                join_codes(held, brought)
            } else {
                3
            }) as u64
        }),
{
    let order = codes_in_word_order(states);
    let held = slot(before, k);
    let brought = resolved(word, order, letter_at(k));
    lemma_codes_in_word_order(word, states);
    lemma_resolved_is_code(word, order, letter_at(k));
    lemma_slot_bound(before, (2 * k) as u64);
    assert(slot(after, k) == held | (brought as u64));
    let b = brought as u64;
    assert(held | b == (if held == 0 {
        b
    } else if b == 0 || b == held {
        held
    } else {
        3
    })) by (bit_vector)
        requires
            held <= 3,
            b <= 3,
    ;
}

} // verus!
