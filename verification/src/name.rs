//! Names in source text.

use vstd::prelude::*;
use vstd::string::{StrSliceExecFns, StringExecFns};

verus! {

/// A name as it is written in source: an identifier, or the number of a tuple
/// field.
#[derive(Debug)]
pub struct Name {
    pub text: String,
}

impl View for Name {
    type V = Seq<char>;

    open spec fn view(&self) -> Seq<char> {
        self.text@
    }
}

/// The decimal digit for a number below ten.
pub open spec fn digit_char(d: nat) -> char {
    seq!['0', '1', '2', '3', '4', '5', '6', '7', '8', '9'][d as int]
}

/// The value of a decimal digit, if the character is one.
pub open spec fn digit_value(c: char) -> Option<nat> {
    if '0' <= c && c <= '9' {
        Some((c as nat - '0' as nat) as nat)
    } else {
        None
    }
}

/// The decimal numeral of a number, without leading zeros.
pub open spec fn decimal(n: nat) -> Seq<char>
    decreases n,
{
    if n < 10 {
        seq![digit_char(n)]
    } else {
        decimal(n / 10).push(digit_char(n % 10))
    }
}

/// Whether every character is a decimal digit.
pub open spec fn all_digits(s: Seq<char>) -> bool {
    forall|i: int| 0 <= i < s.len() ==> digit_value(#[trigger] s[i]) is Some
}

/// The number that a string of decimal digits stands for.
pub open spec fn digits_value(s: Seq<char>) -> nat
    decreases s.len(),
{
    if s.len() == 0 {
        0
    } else {
        digits_value(s.drop_last()) * 10 + digit_value(s.last()).unwrap_or(0)
    }
}

/// The digits of a numeral: an optional plus sign in front does not count.
pub open spec fn numeral_digits(s: Seq<char>) -> Seq<char> {
    if s.len() > 0 && s[0] == '+' {
        s.skip(1)
    } else {
        s
    }
}

/// The index that a text denotes as the name of a tuple field: a numeral of at
/// least one decimal digit whose value fits in a `usize`.
pub open spec fn tuple_index(s: Seq<char>) -> Option<usize> {
    let digits = numeral_digits(s);
    if digits.len() > 0 && all_digits(digits) && digits_value(digits) <= usize::MAX {
        Some(digits_value(digits) as usize)
    } else {
        None
    }
}

proof fn lemma_prefix_value_is_smaller(s: Seq<char>, k: int)
    requires
        0 <= k <= s.len(),
    ensures
        digits_value(s.take(k)) <= digits_value(s),
    decreases s.len(),
{
    if k == s.len() {
        assert(s.take(k) =~= s);
    } else {
        lemma_prefix_value_is_smaller(s.drop_last(), k);
        assert(s.drop_last().take(k) =~= s.take(k));
    }
}

proof fn lemma_digit_round_trip(d: nat)
    requires
        d < 10,
    ensures
        digit_value(digit_char(d)) == Some(d),
        digit_char(d) != '+',
{
}

proof fn lemma_decimal_digits(n: nat)
    ensures
        decimal(n).len() > 0,
        all_digits(decimal(n)),
        digits_value(decimal(n)) == n,
        decimal(n)[0] != '+',
    decreases n,
{
    if n < 10 {
        lemma_digit_round_trip(n);
        assert(decimal(n).drop_last() =~= Seq::<char>::empty());
        assert(digits_value(decimal(n).drop_last()) == 0);
    } else {
        lemma_decimal_digits(n / 10);
        lemma_digit_round_trip(n % 10);
        assert(decimal(n).drop_last() =~= decimal(n / 10));
    }
}

/// The name that a tuple field is given is read back as the field's index.
pub proof fn tuple_field_name_round_trip(idx: usize)
    ensures
        tuple_index(decimal(idx as nat)) == Some(idx),
{
    lemma_decimal_digits(idx as nat);
}

/// The name that a tuple field is given has no zeros in front and no other characters than
/// digits; different fields have different names.
pub proof fn tuple_field_names_are_numerals(idx: usize, other: usize)
    ensures
        decimal(idx as nat).len() > 0,
        forall|i: int|
            0 <= i < decimal(idx as nat).len() ==> '0' <= #[trigger] decimal(idx as nat)[i] <= '9',
        decimal(idx as nat)[0] == '0' ==> idx == 0 && decimal(idx as nat).len() == 1,
        decimal(idx as nat) == decimal(other as nat) ==> idx == other,
{
    lemma_decimal_digits(idx as nat);
    tuple_field_name_round_trip(idx);
    tuple_field_name_round_trip(other);
    lemma_no_zeros_in_front(idx as nat);
    assert forall|i: int| 0 <= i < decimal(idx as nat).len() implies '0' <= #[trigger] decimal(
        idx as nat,
    )[i] <= '9' by {
        assert(digit_value(decimal(idx as nat)[i]) is Some);
    }
}

proof fn lemma_no_zeros_in_front(n: nat)
    ensures
        decimal(n).len() > 0,
        decimal(n)[0] == '0' ==> n == 0,
        n < 10 ==> decimal(n).len() == 1,
    decreases n,
{
    if n >= 10 {
        lemma_no_zeros_in_front(n / 10);
        assert(decimal(n)[0] == decimal(n / 10)[0]);
    }
}

/// A digit behind the name of a tuple field counts ten times less than what is in front of
/// it. A name that has another character than a digit in it, but for a plus sign in front,
/// is that of no tuple field, nor is one without digits.
pub proof fn tuple_field_names_are_read_from_the_front(s: Seq<char>, c: char, i: int)
    ensures
        ('0' <= c <= '9' && tuple_index(s) is Some && tuple_index(s)->Some_0 * 10 + (c as int
            - '0' as int) <= usize::MAX) ==> tuple_index(s.push(c)) is Some && tuple_index(
            s.push(c),
        )->Some_0 == tuple_index(s)->Some_0 * 10 + (c as int - '0' as int),
        '0' <= c <= '9' ==> tuple_index(seq![c]) is Some && tuple_index(seq![c])->Some_0 == c as int
            - '0' as int,
        0 <= i < s.len() && !('0' <= s[i] <= '9') && (i > 0 || s[i] != '+') ==> tuple_index(
            s,
        ) is None,
        s.len() == 0 || s == seq!['+'] ==> tuple_index(s) is None,
        s.len() > 0 && s[0] != '+' ==> tuple_index(seq!['+'] + s) == tuple_index(s),
{
    let digits = numeral_digits(s);
    if '0' <= c <= '9' && tuple_index(s) is Some {
        assert(s.len() > 0);
        let longer = numeral_digits(s.push(c));
        assert(longer =~= digits.push(c));
        assert(longer.drop_last() =~= digits);
        assert forall|k: int| 0 <= k < longer.len() implies digit_value(
            #[trigger] longer[k],
        ) is Some by {
            if k < digits.len() {
                assert(longer[k] == digits[k]);
            }
        }
    }
    if '0' <= c <= '9' {
        assert(numeral_digits(seq![c]) =~= seq![c]);
        assert(seq![c].drop_last() =~= Seq::<char>::empty());
        assert(digits_value(Seq::<char>::empty()) == 0);
        assert(seq![c].last() == c);
        assert(digits_value(seq![c]) == digit_value(c)->Some_0);
    }
    if 0 <= i < s.len() && !('0' <= s[i] <= '9') && (i > 0 || s[i] != '+') {
        if s[0] == '+' {
            assert(digits[i - 1] == s[i]);
        } else {
            assert(digits[i] == s[i]);
        }
    }
    if s.len() > 0 && s[0] != '+' {
        assert((seq!['+'] + s).skip(1) =~= s);
    }
}

/// The digit for a number below ten, as text.
fn digit_text(d: usize) -> (r: &'static str)
    requires
        d < 10,
    ensures
        r@ == seq![digit_char(d as nat)],
{
    proof {
        reveal_strlit("0");
        reveal_strlit("1");
        reveal_strlit("2");
        reveal_strlit("3");
        reveal_strlit("4");
        reveal_strlit("5");
        reveal_strlit("6");
        reveal_strlit("7");
        reveal_strlit("8");
        reveal_strlit("9");
    }
    let r = if d == 0 {
        "0"
    } else if d == 1 {
        "1"
    } else if d == 2 {
        "2"
    } else if d == 3 {
        "3"
    } else if d == 4 {
        "4"
    } else if d == 5 {
        "5"
    } else if d == 6 {
        "6"
    } else if d == 7 {
        "7"
    } else if d == 8 {
        "8"
    } else {
        "9"
    };
    assert(r@ =~= seq![digit_char(d as nat)]);
    r
}

fn decimal_text(n: usize) -> (r: String)
    ensures
        r@ == decimal(n as nat),
    decreases n,
{
    let mut text = if n < 10 {
        String::new()
    } else {
        decimal_text(n / 10)
    };
    let ghost before = text@;
    text.append(digit_text(n % 10));
    assert(text@ =~= before.push(digit_char((n % 10) as nat)));
    assert(text@ =~= decimal(n as nat));
    text
}

fn digit_of(c: char) -> (r: Option<usize>)
    ensures
        match r {
            Some(d) => digit_value(c) == Some(d as nat) && d < 10,
            None => digit_value(c) is None,
        },
{
    if '0' <= c && c <= '9' {
        Some((c as u32 - '0' as u32) as usize)
    } else {
        None
    }
}

impl Name {
    pub fn new(text: &str) -> (r: Name)
        ensures
            r@ == text@,
    {
        Name { text: text.to_owned() }
    }

    /// The name of the tuple field at an index: the index in decimal.
    pub fn tuple_field_name(idx: usize) -> (r: Name)
        ensures
            r@ == decimal(idx as nat),
    {
        Name { text: decimal_text(idx) }
    }

    /// Whether this is the name of the implementing type.
    pub fn is_self_type(&self) -> (r: bool)
        ensures
            r == (self@ == "Self"@),
    {
        *self == Name::new("Self")
    }

    /// The index that this name denotes as the name of a tuple field.
    pub fn as_tuple_index(&self) -> (r: Option<usize>)
        ensures
            r == tuple_index(self@),
    {
        let text = self.text.as_str();
        let len = text.unicode_len();
        let start: usize = if len > 0 && text.get_char(0) == '+' {
            1
        } else {
            0
        };
        let ghost digits = numeral_digits(self@);
        assert(digits =~= self@.skip(start as int));
        if start == len {
            return None;
        }
        let mut value: usize = 0;
        let mut i: usize = start;
        assert(digits.take(0) =~= Seq::<char>::empty());
        while i < len
            invariant
                start <= i <= len,
                text@ == self@,
                len == text@.len(),
                digits == self@.skip(start as int),
                digits == numeral_digits(self@),
                all_digits(digits.take(i - start)),
                value == digits_value(digits.take(i - start)),
            decreases len - i,
        {
            let c = text.get_char(i);
            let ghost k = i - start;
            assert(c == digits[k]);
            assert(digits.take(k + 1).drop_last() =~= digits.take(k));
            match digit_of(c) {
                None => {
                    return None;
                },
                Some(d) => {
                    proof {
                        lemma_prefix_value_is_smaller(digits, k + 1);
                        assert forall|j: int| 0 <= j < k + 1 implies digit_value(
                            #[trigger] digits.take(k + 1)[j],
                        ) is Some by {
                            if j < k {
                                assert(digits.take(k)[j] == digits.take(k + 1)[j]);
                            }
                        }
                    }
                    match value.checked_mul(10) {
                        None => {
                            return None;
                        },
                        Some(tens) => match tens.checked_add(d) {
                            None => {
                                return None;
                            },
                            Some(v) => {
                                value = v;
                            },
                        },
                    }
                },
            }
            i += 1;
        }
        assert(digits.take(i - start) =~= digits);
        Some(value)
    }
}

impl Clone for Name {
    fn clone(&self) -> (r: Name)
        ensures
            r@ == self@,
    {
        Name { text: self.text.clone() }
    }
}

impl PartialEq for Name {
    fn eq(&self, other: &Name) -> (r: bool) {
        self.text == other.text
    }
}

impl vstd::std_specs::cmp::PartialEqSpecImpl for Name {
    open spec fn obeys_eq_spec() -> bool {
        true
    }

    open spec fn eq_spec(&self, other: &Name) -> bool {
        self@ == other@
    }
}

} // verus!
