//! Scanner

use std::collections::VecDeque;

use super::parser::{tokens_resolvable, Operation};
use super::CompilerError;
use crate::vm::VM;
use vstd::prelude::*;

verus! {

/// Forth is about words and numbers.
///
/// Words come in two flavors:
///     - Defined words, which are words kept in the VM 'dictionary'.
///     - Undefined words, which are words missing from the VM dictionary.
///
/// Text made of digits only is a number; any other text is a word.
#[derive(Clone, Copy, Debug, PartialEq, Eq, Structural)]
pub enum Symbol {
    WORD,
    NUMBER,
    UNDEFINED,
}

/// Forth text (e.g. from the user or a file) is first scanned for Tokens:
/// a piece of text and its classification.
#[derive(Clone, Debug, PartialEq)]
pub struct Token {
    pub token: String,
    pub symbol: Symbol,
}

/// A printable, non-space ASCII character.
pub open spec fn is_graphic(c: char) -> bool {
    '!' <= c <= '~'
}

/// An ASCII decimal digit.
pub open spec fn is_digit(c: char) -> bool {
    '0' <= c <= '9'
}

/// Text made of decimal digits only.
pub open spec fn all_digits(s: Seq<char>) -> bool {
    forall|i: int| 0 <= i < s.len() ==> is_digit(#[trigger] s[i])
}

/// How scanning classifies `text` against the dictionary `dict`.
pub open spec fn classify(text: Seq<char>, dict: Map<Seq<char>, Seq<Operation>>) -> Symbol {
    if all_digits(text) {
        Symbol::NUMBER
    } else if dict.contains_key(text) {
        Symbol::WORD
    } else {
        Symbol::UNDEFINED
    }
}

/// A token as text and classification.
pub open spec fn token_view(t: Token) -> (Seq<char>, Symbol) {
    (t.token@, t.symbol)
}

/// Tokens as texts and classifications.
pub open spec fn token_views(ts: Seq<Token>) -> Seq<(Seq<char>, Symbol)> {
    ts.map_values(|t: Token| token_view(t))
}

/// Scanning `line` from position `i` on, with the candidate token starting at
/// `start` and the tokens `found` so far. `None` means that the line ended
/// inside a token.
pub open spec fn scan_from(
    line: Seq<char>,
    dict: Map<Seq<char>, Seq<Operation>>,
    start: int,
    i: int,
    found: Seq<(Seq<char>, Symbol)>,
) -> Option<Seq<(Seq<char>, Symbol)>>
    decreases line.len() - i,
{
    if i >= line.len() {
        if start < i {
            None
        } else {
            Some(found)
        }
    } else if is_graphic(line[i]) {
        scan_from(line, dict, start, i + 1, found)
    } else if start >= i {
        scan_from(line, dict, i + 1, i + 1, found)
    } else {
        let text = line.subrange(start, i);
        let symbol = classify(text, dict);
        if symbol == Symbol::NUMBER {
            scan_from(line, dict, i + 1, i + 1, found.push((text, symbol)))
        } else {
            Some(found.push((text, symbol)))
        }
    }
}

/// The tokens that scanning `line` yields, or `None` where the line ends
/// inside a token. Tokens are runs of graphic characters; scanning goes on
/// past numbers and stops after the first word, defined or not.
pub open spec fn scan_line(line: Seq<char>, dict: Map<Seq<char>, Seq<Operation>>) -> Option<
    Seq<(Seq<char>, Symbol)>,
> {
    scan_from(line, dict, 0, 0, Seq::empty())
}

/// An ASCII character keeps its value as a byte.
pub proof fn lemma_ascii_byte(c: char)
    requires
        (c as int) < 128,
    ensures
        (c as u8) as int == c as int,
{
    let c32 = c as u32;
    assert((c32 as u8) as u32 == c32) by (bit_vector)
        requires
            c32 < 128,
    ;
}

/// Is `text` made of decimal digits only?
pub fn is_all_digits(text: &str) -> (r: bool)
    ensures
        r == all_digits(text@),
{
    if !text.is_ascii() {
        proof {
            if all_digits(text@) {
                assert(vstd::string::is_ascii(text));
            }
        }
        return false;
    }
    proof {
        broadcast use vstd::string::is_ascii_spec_bytes;
    }
    let bytes = text.as_bytes();
    let mut i: usize = 0;
    while i < bytes.len()
        invariant
            i <= bytes@.len(),
            bytes@.len() == text@.len(),
            forall|k: int| 0 <= k < bytes@.len() ==> bytes@[k] == text@[k] as u8,
            forall|k: int| 0 <= k < text@.len() ==> (text@[k] as int) < 128,
            forall|k: int| 0 <= k < i ==> is_digit(#[trigger] text@[k]),
        decreases bytes@.len() - i,
    {
        let b = bytes[i];
        proof {
            lemma_ascii_byte(text@[i as int]);
        }
        if b < 48u8 || b > 57u8 {
            assert(!is_digit(text@[i as int]));
            return false;
        }
        i = i + 1;
    }
    true
}

/// Given the dictionary, are the given bytes a word or number?
fn token_from_bytes(word_or_number: &str, vm: &VM) -> (t: Token)
    requires
        vm.dictionary.wf(),
    ensures
        t.token@ == word_or_number@,
        t.symbol == classify(word_or_number@, vm.dictionary@),
{
    let symbol = if is_all_digits(word_or_number) {
        Symbol::NUMBER
    } else if vm.dictionary.contains_key(word_or_number) {
        Symbol::WORD
    } else {
        Symbol::UNDEFINED
    };
    Token { token: word_or_number.to_owned(), symbol }
}

/// Scan the 'parse area' for tokens and append them to the VM's token queue.
/// Only ASCII characters are permitted in the parse area. Tokens are runs of
/// graphic characters; whitespace is required at the end of the parse area
/// but is otherwise ignored. Scanning stops at the first word, whether
/// defined or undefined. On an error no token is appended.
pub fn scan(string: &str, vm: &mut VM) -> (r: Result<(), CompilerError>)
    requires
        old(vm).dictionary.wf(),
    ensures
        final(vm).dictionary == old(vm).dictionary,
        final(vm).operations == old(vm).operations,
        final(vm).data_stack == old(vm).data_stack,
        final(vm)._ops_applied == old(vm)._ops_applied,
        final(vm).halted == old(vm).halted,
        tokens_resolvable(old(vm).tokens@, old(vm).dictionary@) ==> tokens_resolvable(
            final(vm).tokens@,
            final(vm).dictionary@,
        ),
        !vstd::string::is_ascii(string) ==> r == Err::<(), CompilerError>(CompilerError::NonAscii)
            && final(vm).tokens@ == old(vm).tokens@,
        vstd::string::is_ascii(string) ==> match scan_line(string@, old(vm).dictionary@) {
            Some(found) => {
                &&& r is Ok
                &&& final(vm).tokens@.len() == old(vm).tokens@.len() + found.len()
                &&& final(vm).tokens@.subrange(0, old(vm).tokens@.len() as int) == old(vm).tokens@
                &&& token_views(
                    final(vm).tokens@.subrange(
                        old(vm).tokens@.len() as int,
                        final(vm).tokens@.len() as int,
                    ),
                ) == found
            },
            None => r == Err::<(), CompilerError>(CompilerError::MissingTrailingWhitespace)
                && final(vm).tokens@ == old(vm).tokens@,
        },
{
    // For simplicity, the parse area must be all ASCII characters
    if !string.is_ascii() {
        return Err(CompilerError::NonAscii);
    }
    proof {
        broadcast use vstd::string::is_ascii_spec_bytes;
    }
    let ghost line = string@;
    let ghost dict = vm.dictionary@;
    let bytes = string.as_bytes();
    let mut found: VecDeque<Token> = VecDeque::new();
    let mut start: usize = 0;
    let mut i: usize = 0;
    assert(token_views(found@) =~= Seq::empty());
    // Search for numbers and words, stopping on the first word.
    while i < bytes.len()
        invariant
            start <= i <= bytes@.len(),
            vm.dictionary == old(vm).dictionary,
            vm.operations == old(vm).operations,
            vm.data_stack == old(vm).data_stack,
            vm._ops_applied == old(vm)._ops_applied,
            vm.halted == old(vm).halted,
            vm.tokens == old(vm).tokens,
            bytes@.len() == line.len(),
            line == string@,
            dict == vm.dictionary@,
            vm.dictionary.wf(),
            vstd::string::is_ascii(string),
            forall|k: int| 0 <= k < bytes@.len() ==> bytes@[k] == line[k] as u8,
            forall|k: int| 0 <= k < line.len() ==> (line[k] as int) < 128,
            scan_line(line, dict) == scan_from(line, dict, start as int, i as int, token_views(found@)),
        decreases bytes@.len() - i,
    {
        let b = bytes[i];
        proof {
            lemma_ascii_byte(line[i as int]);
        }
        if 0x21u8 <= b && b <= 0x7eu8 {
            assert(is_graphic(line[i as int]));
            i = i + 1;
        } else {
            assert(!is_graphic(line[i as int]));
            if start < i {
                let token = token_from_bytes(string.substring_ascii(start, i), vm);
                let ghost before = found@;
                let number = match token.symbol {
                    Symbol::NUMBER => true,
                    _ => false,
                };
                found.push_back(token);
                proof {
                    assert(token_views(found@) =~= token_views(before).push(token_view(token)));
                }
                if !number {
                    // Stop on the first word, defined or not.
                    let ghost old_tokens = vm.tokens@;
                    vm.tokens.append(&mut found);
                    proof {
                        let added = before.push(token);
                        lemma_scan_classifies(line, dict, 0, 0, Seq::empty());
                        assert(token_views(added) =~= token_views(before).push(token_view(token)));
                        assert(scan_line(line, dict) == Some(token_views(added)));
                        assert forall|k: int| 0 <= k < added.len() implies classified_by(
                            #[trigger] token_views(added)[k],
                            dict,
                        ) by {
                            let all = scan_line(line, dict)->Some_0;
                            assert(all == token_views(added));
                            assert(classified_by(all[k], dict));
                        }
                        if tokens_resolvable(old_tokens, dict) {
                            lemma_append_resolvable(old_tokens, added, dict);
                        }
                        assert(vm.tokens@.subrange(0, old_tokens.len() as int) =~= old_tokens);
                        assert(vm.tokens@.subrange(old_tokens.len() as int, vm.tokens@.len() as int)
                            =~= before.push(token));
                    }
                    return Ok(());
                }
            }
            i = i + 1;
            start = i;
        }
    }
    // The parse area must always end with a new line (or any non-graphic character).
    if start < i {
        return Err(CompilerError::MissingTrailingWhitespace);
    }
    let ghost old_tokens = vm.tokens@;
    let ghost pending = found@;
    vm.tokens.append(&mut found);
    proof {
        lemma_scan_classifies(line, dict, 0, 0, Seq::empty());
        assert(scan_line(line, dict) == Some(token_views(pending)));
        assert forall|k: int| 0 <= k < pending.len() implies classified_by(
            #[trigger] token_views(pending)[k],
            dict,
        ) by {
            let all = scan_line(line, dict)->Some_0;
            assert(all == token_views(pending));
            assert(classified_by(all[k], dict));
        }
        if tokens_resolvable(old_tokens, dict) {
            lemma_append_resolvable(old_tokens, pending, dict);
        }
        assert(vm.tokens@.subrange(0, old_tokens.len() as int) =~= old_tokens);
        assert(vm.tokens@.subrange(old_tokens.len() as int, vm.tokens@.len() as int) =~= pending);
    }
    Ok(())
}

/// A classified text that agrees with `dict`.
pub open spec fn classified_by(t: (Seq<char>, Symbol), dict: Map<Seq<char>, Seq<Operation>>) -> bool {
    t.1 == classify(t.0, dict)
}

/// Every token that scanning yields is classified against the dictionary it
/// was scanned with.
pub proof fn lemma_scan_classifies(
    line: Seq<char>,
    dict: Map<Seq<char>, Seq<Operation>>,
    start: int,
    i: int,
    found: Seq<(Seq<char>, Symbol)>,
)
    requires
        forall|k: int| 0 <= k < found.len() ==> classified_by(#[trigger] found[k], dict),
    ensures
        scan_from(line, dict, start, i, found) matches Some(all) ==> forall|k: int|
            0 <= k < all.len() ==> classified_by(#[trigger] all[k], dict),
    decreases line.len() - i,
{
    if i >= line.len() {
    } else if is_graphic(line[i]) {
        lemma_scan_classifies(line, dict, start, i + 1, found);
    } else if start >= i {
        lemma_scan_classifies(line, dict, i + 1, i + 1, found);
    } else {
        let text = line.subrange(start, i);
        let next = found.push((text, classify(text, dict)));
        assert forall|k: int| 0 <= k < next.len() implies classified_by(#[trigger] next[k], dict) by {
            if k < found.len() {
                assert(next[k] == found[k]);
            }
        }
        lemma_scan_classifies(line, dict, i + 1, i + 1, next);
    }
}

/// Appending tokens classified against `dict` keeps a queue resolvable.
proof fn lemma_append_resolvable(
    queued: Seq<Token>,
    added: Seq<Token>,
    dict: Map<Seq<char>, Seq<Operation>>,
)
    requires
        tokens_resolvable(queued, dict),
        forall|k: int|
            0 <= k < added.len() ==> classified_by(#[trigger] token_views(added)[k], dict),
    ensures
        tokens_resolvable(queued + added, dict),
{
    let all = queued + added;
    assert forall|k: int| 0 <= k < all.len() implies match #[trigger] all[k].symbol {
        Symbol::NUMBER => all_digits(all[k].token@),
        Symbol::WORD => dict.contains_key(all[k].token@),
        Symbol::UNDEFINED => true,
    } by {
        if k < queued.len() {
            assert(all[k] == queued[k]);
            assert(match queued[k].symbol {
                Symbol::NUMBER => all_digits(queued[k].token@),
                Symbol::WORD => dict.contains_key(queued[k].token@),
                Symbol::UNDEFINED => true,
            });
        } else {
            let j = k - queued.len();
            assert(all[k] == added[j]);
            assert(classified_by(token_views(added)[j], dict));
        }
    }
}

/// Every character of `line` that is graphic but not a digit belongs to the
/// last run of graphic characters: no token before the last one is a word.
pub open spec fn words_only_at_end(line: Seq<char>) -> bool {
    forall|k: int|
        #![trigger line[k]]
        0 <= k < line.len() && is_graphic(line[k]) && !is_digit(line[k]) ==> forall|j: int|
            k <= j < line.len() ==> is_graphic(#[trigger] line[j])
}

proof fn lemma_unterminated_from(
    line: Seq<char>,
    dict: Map<Seq<char>, Seq<Operation>>,
    start: int,
    i: int,
    found: Seq<(Seq<char>, Symbol)>,
)
    requires
        0 <= start <= i <= line.len(),
        start < line.len(),
        is_graphic(line.last()),
        words_only_at_end(line),
        forall|k: int| start <= k < i ==> is_graphic(#[trigger] line[k]),
    ensures
        scan_from(line, dict, start, i, found) is None,
    decreases line.len() - i,
{
    if i >= line.len() {
    } else if is_graphic(line[i]) {
        lemma_unterminated_from(line, dict, start, i + 1, found);
    } else if start >= i {
        lemma_unterminated_from(line, dict, i + 1, i + 1, found);
    } else {
        let text = line.subrange(start, i);
        assert forall|k: int| 0 <= k < text.len() implies is_digit(#[trigger] text[k]) by {
            assert(text[k] == line[start + k]);
            assert(is_graphic(line[start + k]));
            if !is_digit(line[start + k]) {
                assert(is_graphic(line[i]));
            }
        }
        lemma_unterminated_from(line, dict, i + 1, i + 1, found.push((text, classify(text, dict))));
    }
}

/// A line whose last character is graphic cannot be scanned: it fails with
/// `MissingTrailingWhitespace`, unless scanning stops at a word before the
/// end (hence `words_only_at_end`) or the line is empty.
pub proof fn lemma_unterminated_line_fails(line: Seq<char>, dict: Map<Seq<char>, Seq<Operation>>)
    requires
        line.len() > 0,
        is_graphic(line.last()),
        words_only_at_end(line),
    ensures
        scan_line(line, dict) is None,
{
    lemma_unterminated_from(line, dict, 0, 0, Seq::empty());
}

proof fn lemma_skip_graphic(
    line: Seq<char>,
    dict: Map<Seq<char>, Seq<Operation>>,
    start: int,
    i: int,
    j: int,
    found: Seq<(Seq<char>, Symbol)>,
)
    requires
        0 <= i <= j <= line.len(),
        forall|k: int| i <= k < j ==> is_graphic(#[trigger] line[k]),
    ensures
        scan_from(line, dict, start, i, found) == scan_from(line, dict, start, j, found),
    decreases j - i,
{
    if i < j {
        lemma_skip_graphic(line, dict, start, i + 1, j, found);
    }
}

/// A word that the dictionary lacks is scanned as `UNDEFINED`; once it is
/// defined, with any operations (none included), it is scanned as `WORD`.
pub proof fn lemma_word_defined_after_insert(
    word: Seq<char>,
    dict: Map<Seq<char>, Seq<Operation>>,
    operations: Seq<Operation>,
)
    requires
        forall|k: int| 0 <= k < word.len() ==> is_graphic(#[trigger] word[k]),
        !all_digits(word),
        !dict.contains_key(word),
    ensures
        scan_line(word.push('\n'), dict) == Some(seq![(word, Symbol::UNDEFINED)]),
        scan_line(word.push('\n'), dict.insert(word, operations)) == Some(
            seq![(word, Symbol::WORD)],
        ),
{
    let line = word.push('\n');
    let defined = dict.insert(word, operations);
    let n = word.len() as int;
    assert(n > 0);
    assert forall|k: int| 0 <= k < n implies is_graphic(#[trigger] line[k]) by {
        assert(line[k] == word[k]);
    }
    assert(line.subrange(0, n) =~= word);
    lemma_skip_graphic(line, dict, 0, 0, n, Seq::empty());
    lemma_skip_graphic(line, defined, 0, 0, n, Seq::empty());
    assert(Seq::<(Seq<char>, Symbol)>::empty().push((word, Symbol::UNDEFINED)) =~= seq![
        (word, Symbol::UNDEFINED),
    ]);
    assert(Seq::<(Seq<char>, Symbol)>::empty().push((word, Symbol::WORD)) =~= seq![
        (word, Symbol::WORD),
    ]);
}

} // verus!
