//! Reading a list of up to four numbers, written like `[218, 165, 32, 255]`.

use vstd::prelude::*;

verus! {

/// Whether `c` is white space, as Unicode defines it.
pub open spec fn is_space(c: char) -> bool {
    let code = c as u32;
    ||| 0x09 <= code <= 0x0d
    ||| code == 0x20
    ||| code == 0x85
    ||| code == 0xa0
    ||| code == 0x1680
    ||| 0x2000 <= code <= 0x200a
    ||| code == 0x2028
    ||| code == 0x2029
    ||| code == 0x202f
    ||| code == 0x205f
    ||| code == 0x3000
}

/// The characters that open a list.
pub open spec fn opening() -> spec_fn(char) -> bool {
    |c: char| c == '['
}

/// The characters that close a list.
pub open spec fn closing() -> spec_fn(char) -> bool {
    |c: char| c == ']'
}

/// The characters that count as white space.
pub open spec fn spaces() -> spec_fn(char) -> bool {
    |c: char| is_space(c)
}

/// `s` without the unwanted characters that it starts with.
pub open spec fn strip_start(s: Seq<char>, unwanted: spec_fn(char) -> bool) -> Seq<char>
    decreases s.len(),
{
    if s.len() > 0 && unwanted(s.first()) {
        strip_start(s.drop_first(), unwanted)
    } else {
        s
    }
}

/// `s` without the unwanted characters that it ends with.
pub open spec fn strip_end(s: Seq<char>, unwanted: spec_fn(char) -> bool) -> Seq<char>
    decreases s.len(),
{
    if s.len() > 0 && unwanted(s.last()) {
        strip_end(s.drop_last(), unwanted)
    } else {
        s
    }
}

/// `s` without the white space around it.
pub open spec fn trimmed(s: Seq<char>) -> Seq<char> {
    strip_end(strip_start(s, spaces()), spaces())
}

/// The pieces of `s` that its commas separate, in order. A text without a
/// comma is one piece, and there is one piece more than there are commas.
pub open spec fn fields(s: Seq<char>) -> Seq<Seq<char>>
    decreases s.len(),
{
    if s.len() == 0 {
        seq![Seq::<char>::empty()]
    } else {
        let before = fields(s.drop_last());
        if s.last() == ',' {
            before.push(Seq::<char>::empty())
        } else {
            before.drop_last().push(before.last().push(s.last()))
        }
    }
}

/// Whether `c` is one of the digits `0` to `9`.
pub open spec fn is_digit(c: char) -> bool {
    '0' <= c <= '9'
}

/// The number that a run of digits writes in base ten.
pub open spec fn decimal(digits: Seq<char>) -> int
    decreases digits.len(),
{
    if digits.len() == 0 {
        0
    } else {
        10 * decimal(digits.drop_last()) + (digits.last() as int - '0' as int)
    }
}

/// The number that `digits` writes: one digit or more, with a value that 32
/// bits can hold.
pub open spec fn unsigned(digits: Seq<char>) -> Option<u32> {
    if digits.len() > 0 && (forall|i: int| 0 <= i < digits.len() ==> is_digit(#[trigger] digits[i]))
        && decimal(digits) <= u32::MAX {
        Some(decimal(digits) as u32)
    } else {
        None
    }
}

/// The number that `s` writes: digits, after a `+` or after nothing.
pub open spec fn number(s: Seq<char>) -> Option<u32> {
    if s.len() > 0 && s.first() == '+' {
        unsigned(s.drop_first())
    } else {
        unsigned(s)
    }
}

/// The four numbers that `s` writes. The square brackets that `s` starts
/// and ends with are left out, and what remains is cut at its commas; each
/// piece, without the white space around it, has to be a number, and there
/// may be four pieces at most. Pieces that are missing count as 255.
pub open spec fn parsed_array(s: Seq<char>) -> Option<Seq<u32>> {
    let pieces = fields(strip_end(strip_start(s, opening()), closing()));
    if pieces.len() <= 4 && (forall|i: int|
        0 <= i < pieces.len() ==> number(trimmed(#[trigger] pieces[i])) is Some) {
        Some(
            Seq::new(
                4,
                |i: int|
                    if i < pieces.len() {
                        number(trimmed(pieces[i])).unwrap()
                    } else {
                        255u32
                    },
            ),
        )
    } else {
        None
    }
}

/// Tells whether `c` is white space.
pub fn is_whitespace(c: char) -> (space: bool)
    ensures
        space == is_space(c),
{
    let code: u32 = c as u32;
    (0x09 <= code && code <= 0x0d) || code == 0x20 || code == 0x85 || code == 0xa0 || code
        == 0x1680 || (0x2000 <= code && code <= 0x200a) || code == 0x2028 || code == 0x2029 || code
        == 0x202f || code == 0x205f || code == 0x3000
}

/// A kind of character that is stripped from the ends of a text.
enum Strip {
    Opening,
    Closing,
    Spaces,
}

impl Strip {
    /// The characters of this kind.
    spec fn unwanted(self) -> spec_fn(char) -> bool {
        match self {
            Strip::Opening => opening(),
            Strip::Closing => closing(),
            Strip::Spaces => spaces(),
        }
    }

    /// Tells whether `c` is of this kind.
    fn has(&self, c: char) -> (found: bool)
        ensures
            found == (self.unwanted())(c),
    {
        match self {
            Strip::Opening => c == '[',
            Strip::Closing => c == ']',
            Strip::Spaces => is_whitespace(c),
        }
    }
}

/// Where the characters `from..to` of `s` start once the unwanted ones in
/// front are left out.
fn skip_start(s: &str, from: usize, to: usize, strip: &Strip) -> (start: usize)
    requires
        from <= to <= s@.len(),
    ensures
        from <= start <= to,
        s@.subrange(start as int, to as int) == strip_start(
            s@.subrange(from as int, to as int),
            strip.unwanted(),
        ),
{
    let mut start = from;
    while start < to
        invariant
            from <= start <= to <= s@.len(),
            strip_start(s@.subrange(start as int, to as int), strip.unwanted()) == strip_start(
                s@.subrange(from as int, to as int),
                strip.unwanted(),
            ),
        ensures
            from <= start <= to,
            s@.subrange(start as int, to as int) == strip_start(
                s@.subrange(from as int, to as int),
                strip.unwanted(),
            ),
        decreases to - start,
    {
        if !strip.has(s.get_char(start)) {
            break;
        }
        assert(s@.subrange(start as int, to as int).drop_first() =~= s@.subrange(
            start + 1,
            to as int,
        ));
        start += 1;
    }
    start
}

/// Where the characters `from..to` of `s` end once the unwanted ones at the
/// back are left out.
fn skip_end(s: &str, from: usize, to: usize, strip: &Strip) -> (end: usize)
    requires
        from <= to <= s@.len(),
    ensures
        from <= end <= to,
        s@.subrange(from as int, end as int) == strip_end(
            s@.subrange(from as int, to as int),
            strip.unwanted(),
        ),
{
    let mut end = to;
    while from < end
        invariant
            from <= end <= to <= s@.len(),
            strip_end(s@.subrange(from as int, end as int), strip.unwanted()) == strip_end(
                s@.subrange(from as int, to as int),
                strip.unwanted(),
            ),
        ensures
            from <= end <= to,
            s@.subrange(from as int, end as int) == strip_end(
                s@.subrange(from as int, to as int),
                strip.unwanted(),
            ),
        decreases end - from,
    {
        if !strip.has(s.get_char(end - 1)) {
            break;
        }
        assert(s@.subrange(from as int, end as int).drop_last() =~= s@.subrange(
            from as int,
            end - 1,
        ));
        end -= 1;
    }
    end
}

/// A run of digits writes a number that is at least the one that any of its
/// starts writes.
proof fn lemma_decimal_grows(digits: Seq<char>, shorter: int)
    requires
        0 <= shorter <= digits.len(),
        forall|i: int| 0 <= i < digits.len() ==> is_digit(#[trigger] digits[i]),
    ensures
        0 <= decimal(digits.subrange(0, shorter)) <= decimal(digits),
    decreases digits.len() - shorter,
{
    if shorter == digits.len() {
        assert(digits.subrange(0, shorter) =~= digits);
        lemma_decimal_nonnegative(digits);
    } else {
        lemma_decimal_grows(digits, shorter + 1);
        assert(digits.subrange(0, shorter + 1).drop_last() =~= digits.subrange(0, shorter));
        assert(is_digit(digits[shorter]));
        lemma_decimal_nonnegative(digits.subrange(0, shorter));
    }
}

/// A run of digits writes a number that is not negative.
proof fn lemma_decimal_nonnegative(digits: Seq<char>)
    requires
        forall|i: int| 0 <= i < digits.len() ==> is_digit(#[trigger] digits[i]),
    ensures
        0 <= decimal(digits),
    decreases digits.len(),
{
    if digits.len() > 0 {
        lemma_decimal_nonnegative(digits.drop_last());
        assert(is_digit(digits[digits.len() - 1]));
    }
}

/// The number that the characters `from..to` of `s` write.
fn parse_number(s: &str, from: usize, to: usize) -> (value: Option<u32>)
    requires
        from <= to <= s@.len(),
    ensures
        value == number(s@.subrange(from as int, to as int)),
{
    let ghost text = s@.subrange(from as int, to as int);
    if from == to {
        return None;
    }
    let first = if s.get_char(from) == '+' {
        from + 1
    } else {
        from
    };
    let ghost digits = s@.subrange(first as int, to as int);
    assert(text.first() == s@[from as int]);
    assert(digits =~= if text.first() == '+' {
        text.drop_first()
    } else {
        text
    });
    assert(number(text) == unsigned(digits));
    if first == to {
        return None;
    }
    let mut total: u64 = 0;
    let mut at = first;
    while at < to
        invariant
            from <= first <= at <= to <= s@.len(),
            first < to,
            text == s@.subrange(from as int, to as int),
            digits == s@.subrange(first as int, to as int),
            number(text) == unsigned(digits),
            total <= u32::MAX,
            total == decimal(digits.subrange(0, at - first)),
            forall|i: int| 0 <= i < at - first ==> is_digit(#[trigger] digits[i]),
        decreases to - at,
    {
        let c = s.get_char(at);
        assert(c == digits[at - first]);
        if !('0' <= c && c <= '9') {
            assert(!is_digit(digits[at - first]));
            return None;
        }
        assert(digits.subrange(0, at - first + 1).drop_last() =~= digits.subrange(0, at - first));
        total = total * 10 + (c as u64 - '0' as u64);
        assert(total == decimal(digits.subrange(0, at - first + 1)));
        if total > u32::MAX as u64 {
            proof {
                if forall|i: int| 0 <= i < digits.len() ==> is_digit(#[trigger] digits[i]) {
                    lemma_decimal_grows(digits, at - first + 1);
                }
            }
            return None;
        }
        at += 1;
    }
    assert(digits.subrange(0, to - first) =~= digits);
    Some(total as u32)
}

/// The number that the characters `from..to` of `s` write between the white
/// space around them.
fn parse_field(s: &str, from: usize, to: usize) -> (value: Option<u32>)
    requires
        from <= to <= s@.len(),
    ensures
        value == number(trimmed(s@.subrange(from as int, to as int))),
{
    let start = skip_start(s, from, to, &Strip::Spaces);
    let end = skip_end(s, start, to, &Strip::Spaces);
    parse_number(s, start, end)
}

/// Where the pieces of the characters `from..to` of `s` start and end.
fn split_fields(s: &str, from: usize, to: usize) -> (pieces: Vec<(usize, usize)>)
    requires
        from <= to <= s@.len(),
    ensures
        pieces@.len() == fields(s@.subrange(from as int, to as int)).len(),
        forall|k: int|
            0 <= k < pieces@.len() ==> {
                &&& from <= (#[trigger] pieces@[k]).0 <= pieces@[k].1 <= to
                &&& s@.subrange(pieces@[k].0 as int, pieces@[k].1 as int) == fields(
                    s@.subrange(from as int, to as int),
                )[k]
            },
{
    let mut pieces: Vec<(usize, usize)> = Vec::new();
    let mut start = from;
    let mut at = from;
    assert(s@.subrange(from as int, from as int) =~= Seq::<char>::empty());
    while at < to
        invariant
            from <= start <= at <= to <= s@.len(),
            fields(s@.subrange(from as int, at as int)).len() == pieces@.len() + 1,
            fields(s@.subrange(from as int, at as int)).last() == s@.subrange(
                start as int,
                at as int,
            ),
            forall|k: int|
                0 <= k < pieces@.len() ==> {
                    &&& from <= (#[trigger] pieces@[k]).0 <= pieces@[k].1 <= to
                    &&& s@.subrange(pieces@[k].0 as int, pieces@[k].1 as int) == fields(
                        s@.subrange(from as int, at as int),
                    )[k]
                },
        decreases to - at,
    {
        let ghost before = fields(s@.subrange(from as int, at as int));
        assert(s@.subrange(from as int, at + 1).drop_last() =~= s@.subrange(
            from as int,
            at as int,
        ));
        if s.get_char(at) == ',' {
            pieces.push((start, at));
            start = at + 1;
            assert(s@.subrange(start as int, start as int) =~= Seq::<char>::empty());
        } else {
            assert(s@.subrange(start as int, at as int).push(s@[at as int]) =~= s@.subrange(
                start as int,
                at + 1,
            ));
        }
        at += 1;
    }
    pieces.push((start, to));
    pieces
}

/// Reads up to four numbers from a text such as `[218, 165, 32, 255]`.
/// Numbers that the text leaves out are 255.
pub fn parse_num_array(array: &str) -> (result: Result<[u32; 4], &'static str>)
    ensures
        match result {
            Ok(numbers) => parsed_array(array@) == Some(numbers@),
            Err(message) => parsed_array(array@) is None && message@
                == "Argument incorrectly formatted, correct format should be: [a, b, c]"@,
        },
{
    let length = array.unicode_len();
    let from = skip_start(array, 0, length, &Strip::Opening);
    let to = skip_end(array, from, length, &Strip::Closing);
    assert(array@.subrange(0, length as int) =~= array@);
    let ghost body = array@.subrange(from as int, to as int);
    let pieces = split_fields(array, from, to);
    if pieces.len() > 4 {
        return Err("Argument incorrectly formatted, correct format should be: [a, b, c]");
    }
    let mut numbers: [u32; 4] = [255, 255, 255, 255];
    let mut k: usize = 0;
    while k < pieces.len()
        invariant
            k <= pieces@.len() <= 4,
            from <= to <= array@.len(),
            body == array@.subrange(from as int, to as int),
            body == strip_end(strip_start(array@, opening()), closing()),
            pieces@.len() == fields(body).len(),
            forall|j: int|
                0 <= j < pieces@.len() ==> {
                    &&& from <= (#[trigger] pieces@[j]).0 <= pieces@[j].1 <= to
                    &&& array@.subrange(pieces@[j].0 as int, pieces@[j].1 as int) == fields(body)[j]
                },
            forall|j: int|
                0 <= j < k ==> number(trimmed(#[trigger] fields(body)[j])) == Some(numbers[j]),
            forall|j: int| k <= j < 4 ==> #[trigger] numbers[j] == 255,
        decreases pieces@.len() - k,
    {
        let (start, end) = pieces[k];
        match parse_field(array, start, end) {
            Some(value) => {
                numbers[k] = value;
            },
            None => {
                assert(number(trimmed(fields(body)[k as int])) is None);
                return Err("Argument incorrectly formatted, correct format should be: [a, b, c]");
            },
        }
        k += 1;
    }
    assert(numbers@ =~= parsed_array(array@).unwrap());
    Ok(numbers)
}

} // verus!
