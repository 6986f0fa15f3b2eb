//! Text as a sequence of characters: search for a fragment, the order of
//! keys, and decimal numerals.

use vstd::prelude::*;

verus! {

/// The characters of a text, in order.
pub fn chars_of(text: &str) -> (chars: Vec<char>)
    ensures
        chars@ == text@,
{
    let mut chars: Vec<char> = Vec::new();
    for c in it: text.chars()
        invariant
            chars@ == it.seq().take(it.index() as int),
            it.seq() == text@,
    {
        chars.push(c);
    }
    chars
}

/// Whether two texts hold the same characters.
pub fn same_text(a: &str, b: &str) -> (same: bool)
    ensures
        same == (a@ == b@),
{
    a.to_owned() == b.to_owned()
}

/// `needle` stands in `haystack` at position `at`.
pub open spec fn occurs_at(needle: Seq<char>, haystack: Seq<char>, at: int) -> bool {
    &&& 0 <= at
    &&& at + needle.len() <= haystack.len()
    &&& haystack.subrange(at, at + needle.len()) == needle
}

/// `needle` stands somewhere in `haystack`.
pub open spec fn occurs_in(needle: Seq<char>, haystack: Seq<char>) -> bool {
    exists|at: int| occurs_at(needle, haystack, at)
}

fn matches_at(haystack: &Vec<char>, needle: &Vec<char>, at: usize) -> (hit: bool)
    requires
        at + needle.len() <= haystack.len(),
    ensures
        hit == occurs_at(needle@, haystack@, at as int),
{
    let mut k: usize = 0;
    while k < needle.len()
        invariant
            k <= needle.len(),
            at + needle.len() <= haystack.len(),
            forall|j: int| 0 <= j < k ==> haystack@[at + j] == needle@[j],
        decreases needle.len() - k,
    {
        if haystack[at + k] != needle[k] {
            assert(haystack@.subrange(at as int, at + needle.len())[k as int] != needle@[k as int]);
            return false;
        }
        k += 1;
    }
    assert(haystack@.subrange(at as int, at + needle.len()) =~= needle@);
    true
}

/// Whether `needle` stands somewhere in `haystack`. The empty text stands in
/// every text.
pub fn contains(haystack: &str, needle: &str) -> (found: bool)
    ensures
        found == occurs_in(needle@, haystack@),
{
    let hay = chars_of(haystack);
    let pin = chars_of(needle);
    if pin.len() > hay.len() {
        return false;
    }
    let last: usize = hay.len() - pin.len();
    let mut at: usize = 0;
    loop
        invariant
            at <= last,
            last == hay.len() - pin.len(),
            pin.len() <= hay.len(),
            hay@ == haystack@,
            pin@ == needle@,
            forall|k: int| 0 <= k < at ==> !occurs_at(pin@, hay@, k),
        decreases last - at,
    {
        if matches_at(&hay, &pin, at) {
            return true;
        }
        if at == last {
            return false;
        }
        at += 1;
    }
}

/// The two texts hold the same characters at every position below `n`.
pub open spec fn agree_until(a: Seq<char>, b: Seq<char>, n: int) -> bool {
    &&& 0 <= n <= a.len()
    &&& n <= b.len()
    &&& forall|k: int| 0 <= k < n ==> a[k] == b[k]
}

/// `a` comes before `b` at position `n`: up to there they agree, and there
/// `a` ends or holds the lesser character.
pub open spec fn precedes_at(a: Seq<char>, b: Seq<char>, n: int) -> bool {
    &&& agree_until(a, b, n)
    &&& n < b.len()
    &&& (n == a.len() || a[n] < b[n])
}

/// The order of keys: `a` comes strictly before `b`, character by character,
/// a character counting by its code point and a proper prefix coming first.
pub open spec fn precedes(a: Seq<char>, b: Seq<char>) -> bool {
    exists|n: int| precedes_at(a, b, n)
}

/// How one key stands to another in the order of keys.
#[derive(Clone, Copy, Debug, PartialEq, Eq, Structural)]
pub enum KeyOrder {
    Before,
    Same,
    After,
}

/// The order of keys is transitive.
pub proof fn lemma_precedes_transitive(a: Seq<char>, b: Seq<char>, c: Seq<char>)
    requires
        precedes(a, b),
        precedes(b, c),
    ensures
        precedes(a, c),
{
    let n1 = choose|n: int| precedes_at(a, b, n);
    let n2 = choose|n: int| precedes_at(b, c, n);
    let n = if n1 <= n2 { n1 } else { n2 };
    assert(precedes_at(a, c, n));
}

/// No key comes before a key that comes before it; so none comes before
/// itself.
pub proof fn lemma_precedes_asymmetric(a: Seq<char>, b: Seq<char>)
    requires
        precedes(a, b),
    ensures
        !precedes(b, a),
        a != b,
{
    let n1 = choose|n: int| precedes_at(a, b, n);
    if precedes(b, a) {
        let n2 = choose|n: int| precedes_at(b, a, n);
        if n1 < n2 {
            assert(b[n1] == a[n1]);
        } else if n2 < n1 {
            assert(a[n2] == b[n2]);
        }
        assert(false);
    }
}

/// Places `a` against `b` in the order of keys.
pub fn compare(a: &str, b: &str) -> (order: KeyOrder)
    ensures
        order == KeyOrder::Before <==> precedes(a@, b@),
        order == KeyOrder::Same <==> a@ == b@,
        order == KeyOrder::After <==> precedes(b@, a@),
{
    let left = chars_of(a);
    let right = chars_of(b);
    let mut n: usize = 0;
    while n < left.len() && n < right.len()
        invariant
            agree_until(left@, right@, n as int),
            left@ == a@,
            right@ == b@,
        decreases left.len() - n,
    {
        let x: char = left[n];
        let y: char = right[n];
        if x < y {
            proof {
                assert(precedes_at(left@, right@, n as int));
                lemma_precedes_asymmetric(left@, right@);
            }
            return KeyOrder::Before;
        }
        if y < x {
            proof {
                assert(precedes_at(right@, left@, n as int));
                lemma_precedes_asymmetric(right@, left@);
            }
            return KeyOrder::After;
        }
        n += 1;
    }
    if n < right.len() {
        proof {
            assert(precedes_at(left@, right@, n as int));
            lemma_precedes_asymmetric(left@, right@);
        }
        KeyOrder::Before
    } else if n < left.len() {
        proof {
            assert(precedes_at(right@, left@, n as int));
            lemma_precedes_asymmetric(right@, left@);
        }
        KeyOrder::After
    } else {
        proof {
            assert(left@ =~= right@);
            if precedes(left@, right@) {
                lemma_precedes_asymmetric(left@, right@);
            }
        }
        KeyOrder::Same
    }
}

/// The character that writes a digit.
pub open spec fn digit_char(d: nat) -> char {
    if d == 0 {
        '0'
    } else if d == 1 {
        '1'
    } else if d == 2 {
        '2'
    } else if d == 3 {
        '3'
    } else if d == 4 {
        '4'
    } else if d == 5 {
        '5'
    } else if d == 6 {
        '6'
    } else if d == 7 {
        '7'
    } else if d == 8 {
        '8'
    } else {
        '9'
    }
}

/// The decimal numeral of a number: its digits from the most significant
/// down, without leading zeros, and `0` for zero.
pub open spec fn decimal(n: nat) -> Seq<char>
    decreases n,
{
    if n < 10 {
        seq![digit_char(n)]
    } else {
        decimal(n / 10).push(digit_char(n % 10))
    }
}

fn digit_text(d: u64) -> (text: &'static str)
    requires
        d < 10,
    ensures
        text@ == seq![digit_char(d as nat)],
{
    proof {
        reveal_strlit("0");
        reveal_strlit("1");
        reveal_strlit("2");
        reveal_strlit("3");
        reveal_strlit("4");
        reveal_strlit("5");
        reveal_strlit("6");
        reveal_strlit("7");
        reveal_strlit("8");
        reveal_strlit("9");
    }
    let text = if d == 0 {
        "0"
    } else if d == 1 {
        "1"
    } else if d == 2 {
        "2"
    } else if d == 3 {
        "3"
    } else if d == 4 {
        "4"
    } else if d == 5 {
        "5"
    } else if d == 6 {
        "6"
    } else if d == 7 {
        "7"
    } else if d == 8 {
        "8"
    } else {
        "9"
    };
    assert(text@ =~= seq![digit_char(d as nat)]);
    text
}

/// Writes a number as its decimal numeral.
pub fn decimal_text(n: u64) -> (text: String)
    ensures
        text@ == decimal(n as nat),
{
    let mut rest: u64 = n / 10;
    let mut text: String = digit_text(n % 10).to_owned();
    assert(decimal(n as nat) =~= (if rest > 0 {
        decimal(rest as nat)
    } else {
        Seq::empty()
    }) + text@);
    while rest > 0
        invariant
            decimal(n as nat) == (if rest > 0 {
                decimal(rest as nat)
            } else {
                Seq::empty()
            }) + text@,
        decreases rest,
    {
        let mut longer: String = digit_text(rest % 10).to_owned();
        longer.append(text.as_str());
        proof {
            let lead = if rest / 10 > 0 {
                decimal((rest / 10) as nat)
            } else {
                Seq::empty()
            };
            assert(decimal(rest as nat) =~= lead + seq![digit_char((rest % 10) as nat)]);
            assert(lead + longer@ =~= decimal(rest as nat) + text@);
        }
        text = longer;
        rest = rest / 10;
    }
    assert(decimal(n as nat) =~= text@);
    text
}

} // verus!
