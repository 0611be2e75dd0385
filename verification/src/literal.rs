//! The grammar of number literals.
//!
//! A text is a number exactly when the standard library's parser for
//! double-precision floats accepts it:
//!
//! ```text
//! Float  ::= Sign? ( 'inf' | 'infinity' | 'nan' | Number )
//! Number ::= ( Digit+ | Digit+ '.' Digit* | Digit* '.' Digit+ ) Exp?
//! Exp    ::= 'e' Sign? Digit+
//! Sign   ::= [+-]
//! Digit  ::= [0-9]
//! ```
//!
//! with the letters matched without regard to case.

use vstd::prelude::*;

verus! {

pub open spec fn is_digit(c: char) -> bool {
    '0' <= c <= '9'
}

pub open spec fn is_sign(c: char) -> bool {
    c == '+' || c == '-'
}

/// The position just behind the longest run of digits that starts at `from`.
pub open spec fn digits_end(s: Seq<char>, from: int) -> int
    decreases s.len() - from,
{
    if 0 <= from < s.len() && is_digit(s[from]) {
        digits_end(s, from + 1)
    } else {
        from
    }
}

/// `s` from `from` on is `Sign? Digit+`, the part of an exponent behind its `e`.
pub open spec fn is_exponent_tail(s: Seq<char>, from: int) -> bool {
    let start = if from < s.len() && is_sign(s[from]) {
        from + 1
    } else {
        from
    };
    start < s.len() && digits_end(s, start) == s.len()
}

/// `s` from `from` on is a `Number` of the grammar.
pub open spec fn is_number_body(s: Seq<char>, from: int) -> bool {
    let whole_end = digits_end(s, from);
    let has_point = whole_end < s.len() && s[whole_end] == '.';
    let end = if has_point {
        digits_end(s, whole_end + 1)
    } else {
        whole_end
    };
    let digit_count = if has_point {
        end - from - 1
    } else {
        end - from
    };
    &&& digit_count > 0
    &&& end == s.len() || ((s[end] == 'e' || s[end] == 'E') && is_exponent_tail(s, end + 1))
}

/// `c` is the upper-case ASCII letter `upper` or its lower-case form.
pub open spec fn is_letter(c: char, upper: char) -> bool {
    c == upper || c as int == upper as int + 32
}

/// `s` from `from` on spells `word`, given in upper case, in letters of either case.
pub open spec fn spells(s: Seq<char>, from: int, word: Seq<char>) -> bool {
    &&& s.len() - from == word.len()
    &&& forall|i: int| 0 <= i < word.len() ==> is_letter(#[trigger] s[from + i], word[i])
}

/// `s` from `from` on names an infinity or a not-a-number.
pub open spec fn is_special_body(s: Seq<char>, from: int) -> bool {
    ||| spells(s, from, seq!['I', 'N', 'F'])
    ||| spells(s, from, seq!['N', 'A', 'N'])
    ||| spells(s, from, seq!['I', 'N', 'F', 'I', 'N', 'I', 'T', 'Y'])
}

/// `s` is a number literal.
pub open spec fn is_number(s: Seq<char>) -> bool {
    let from = if s.len() > 0 && is_sign(s[0]) {
        1int
    } else {
        0int
    };
    from < s.len() && (is_number_body(s, from) || is_special_body(s, from))
}

/// `s` holds nothing but digits and points behind an optional `-`.
pub open spec fn is_plain_text(s: Seq<char>) -> bool {
    forall|i: int|
        0 <= i < s.len() ==> is_digit(#[trigger] s[i]) || s[i] == '.' || (i == 0 && s[i] == '-')
}

/// `s` is a number written with digits and at most one point, with or
/// without a `-` in front: the numbers of infix notation.
pub open spec fn is_plain_number(s: Seq<char>) -> bool {
    is_number(s) && is_plain_text(s)
}

/// The 64 bits `bits` are those of a double that compares equal to zero:
/// all clear, or only the sign bit set.
pub open spec fn is_zero(bits: u64) -> bool {
    bits == 0 || bits == 0x8000_0000_0000_0000
}

pub fn is_zero_bits(bits: u64) -> (zero: bool)
    ensures
        zero == is_zero(bits),
{
    bits == 0 || bits == 0x8000_0000_0000_0000
}

fn is_digit_char(c: char) -> (digit: bool)
    ensures
        digit == is_digit(c),
{
    '0' <= c && c <= '9'
}

fn is_letter_char(c: char, upper: char) -> (same: bool)
    requires
        'A' <= upper <= 'Z',
    ensures
        same == is_letter(c, upper),
{
    c == upper || c as u32 == upper as u32 + 32
}

fn skip_digits(text: &Vec<char>, from: usize) -> (end: usize)
    requires
        from <= text.len(),
    ensures
        end == digits_end(text@, from as int),
        from <= end <= text.len(),
{
    let mut end: usize = from;
    while end < text.len() && is_digit_char(text[end])
        invariant
            from <= end <= text.len(),
            digits_end(text@, from as int) == digits_end(text@, end as int),
        decreases text.len() - end,
    {
        end += 1;
    }
    end
}

fn spells_word(text: &Vec<char>, from: usize, word: &Vec<char>) -> (found: bool)
    requires
        from <= text.len(),
        forall|i: int| 0 <= i < word.len() ==> 'A' <= #[trigger] word[i] <= 'Z',
    ensures
        found == spells(text@, from as int, word@),
{
    if text.len() - from != word.len() {
        return false;
    }
    let mut i: usize = 0;
    while i < word.len()
        invariant
            from <= text.len(),
            text.len() - from == word.len(),
            i <= word.len(),
            forall|j: int| 0 <= j < word.len() ==> 'A' <= #[trigger] word[j] <= 'Z',
            forall|j: int| 0 <= j < i ==> is_letter(#[trigger] text@[from + j], word@[j]),
        decreases word.len() - i,
    {
        if !is_letter_char(text[from + i], word[i]) {
            return false;
        }
        i += 1;
    }
    true
}

fn is_exponent_tail_at(text: &Vec<char>, from: usize) -> (found: bool)
    requires
        from <= text.len(),
    ensures
        found == is_exponent_tail(text@, from as int),
{
    let mut start: usize = from;
    if start < text.len() && (text[start] == '+' || text[start] == '-') {
        start += 1;
    }
    start < text.len() && skip_digits(text, start) == text.len()
}

fn is_number_body_at(text: &Vec<char>, from: usize) -> (found: bool)
    requires
        from <= text.len(),
    ensures
        found == is_number_body(text@, from as int),
{
    let whole_end = skip_digits(text, from);
    let has_point = whole_end < text.len() && text[whole_end] == '.';
    let end = if has_point {
        skip_digits(text, whole_end + 1)
    } else {
        whole_end
    };
    let digit_count = if has_point {
        end - from - 1
    } else {
        end - from
    };
    if digit_count == 0 {
        return false;
    }
    if end == text.len() {
        return true;
    }
    (text[end] == 'e' || text[end] == 'E') && is_exponent_tail_at(text, end + 1)
}

fn is_special_body_at(text: &Vec<char>, from: usize) -> (found: bool)
    requires
        from <= text.len(),
    ensures
        found == is_special_body(text@, from as int),
{
    let inf: Vec<char> = vec!['I', 'N', 'F'];
    let nan: Vec<char> = vec!['N', 'A', 'N'];
    let infinity: Vec<char> = vec!['I', 'N', 'F', 'I', 'N', 'I', 'T', 'Y'];
    assert(inf@ =~= seq!['I', 'N', 'F']);
    assert(nan@ =~= seq!['N', 'A', 'N']);
    assert(infinity@ =~= seq!['I', 'N', 'F', 'I', 'N', 'I', 'T', 'Y']);
    spells_word(text, from, &inf) || spells_word(text, from, &nan) || spells_word(
        text,
        from,
        &infinity,
    )
}

/// Decides whether `text` is a number literal.
pub fn is_number_text(text: &Vec<char>) -> (found: bool)
    ensures
        found == is_number(text@),
{
    let from: usize = if text.len() > 0 && (text[0] == '+' || text[0] == '-') {
        1
    } else {
        0
    };
    from < text.len() && (is_number_body_at(text, from) || is_special_body_at(text, from))
}

/// The text of a number. Every value of this type holds a number of the
/// grammar, so that its value as a double always exists.
#[derive(Debug)]
pub struct Literal {
    text: Vec<char>,
}

impl View for Literal {
    type V = Seq<char>;

    closed spec fn view(&self) -> Seq<char> {
        self.text@
    }
}

impl Literal {
    /// What holds of every literal: its text is a number.
    #[verifier::type_invariant]
    pub closed spec fn holds_number(self) -> bool {
        is_number(self.text@)
    }

    pub proof fn lemma_holds_number(self)
        requires
            self.holds_number(),
        ensures
            is_number(self@),
    {
    }

    /// Makes a literal of `text` if it is a number, and hands the text back
    /// if it is not.
    pub fn new(text: Vec<char>) -> (made: Result<Literal, Vec<char>>)
        ensures
            match made {
                Ok(literal) => is_number(text@) && literal@ == text@,
                Err(returned) => !is_number(text@) && returned == text,
            },
    {
        if is_number_text(&text) {
            Ok(Literal { text })
        } else {
            Err(text)
        }
    }

    /// The characters of the literal.
    pub fn text(&self) -> (text: &Vec<char>)
        ensures
            text@ == self@,
            is_number(text@),
    {
        proof {
            use_type_invariant(self);
        }
        &self.text
    }
}

} // verus!
