//! Text as sequences of characters, and the order in which names are listed.

use crate::order::Keyed;
use core::cmp::Ordering;
use vstd::prelude::*;

verus! {

/// `String::push` appends one character.
pub assume_specification[ String::push ](s: &mut String, c: char)
    ensures
        final(s)@ == old(s)@.push(c),
;

/// What `str::to_lowercase` makes of a text.
pub uninterp spec fn lowercase_of(s: Seq<char>) -> Seq<char>;

/// `str::to_lowercase`: the lower-case form of a text, which depends on the text alone. Nothing
/// else is said of it here; which characters it maps to which is not stated.
#[verifier::external_body]
pub(crate) fn lowercase(s: &str) -> (r: String)
    ensures
        r@ == lowercase_of(s@),
{
    s.to_lowercase()
}

/// The characters of a text.
pub fn chars_of(s: &str) -> (r: Vec<char>)
    ensures
        r@ == s@,
{
    let mut out: Vec<char> = Vec::new();
    for c in it: s.chars()
        invariant
            it.seq() == s@,
            out@ == s@.take(it.index() as int),
    {
        assert(s@.take(it.index() + 1) == s@.take(it.index() as int).push(c));
        out.push(c);
    }
    assert(s@.take(s@.len() as int) == s@);
    out
}

/// The text with these characters.
pub fn string_of(chars: &Vec<char>) -> (r: String)
    ensures
        r@ == chars@,
{
    let mut out = String::new();
    let n: usize = chars.len();
    for i in 0..n
        invariant
            n == chars.len(),
            out@ == chars@.take(i as int),
    {
        assert(chars@.take(i + 1) == chars@.take(i as int).push(chars@[i as int]));
        out.push(chars[i]);
    }
    assert(chars@.take(n as int) == chars@);
    out
}

/// Whether `s` begins with `prefix`.
pub open spec fn begins_with(s: Seq<char>, prefix: Seq<char>) -> bool {
    prefix.len() <= s.len() && s.take(prefix.len() as int) == prefix
}

/// Whether `s` begins with `prefix`.
pub fn chars_begin_with(s: &Vec<char>, prefix: &Vec<char>) -> (r: bool)
    ensures
        r == begins_with(s@, prefix@),
{
    if s.len() < prefix.len() {
        return false;
    }
    let n: usize = prefix.len();
    for i in 0..n
        invariant
            n == prefix.len(),
            n <= s.len(),
            forall|j: int| 0 <= j < i ==> s@[j] == prefix@[j],
    {
        if s[i] != prefix[i] {
            assert(s@.take(n as int)[i as int] != prefix@[i as int]);
            return false;
        }
    }
    assert(s@.take(n as int) =~= prefix@);
    true
}

// ---- natural order ------------------------------------------------------------------------

/// An ASCII digit.
pub open spec fn is_digit(c: char) -> bool {
    48 <= (c as int) <= 57
}

/// How many digits `s` begins with.
pub open spec fn digits_len(s: Seq<char>) -> nat
    decreases s.len(),
{
    if s.len() > 0 && is_digit(s[0]) {
        1 + digits_len(s.skip(1))
    } else {
        0
    }
}

pub proof fn lemma_digits_len(s: Seq<char>)
    ensures
        digits_len(s) <= s.len(),
        s.len() > 0 && is_digit(s[0]) ==> digits_len(s) > 0,
    decreases s.len(),
{
    if s.len() > 0 && is_digit(s[0]) {
        lemma_digits_len(s.skip(1));
    }
}

/// What a digit stands for.
pub open spec fn digit_value(c: char) -> nat {
    ((c as int) - 48) as nat
}

/// The number that digits spell.
pub open spec fn decimal(s: Seq<char>) -> nat
    decreases s.len(),
{
    if s.len() == 0 {
        0
    } else {
        decimal(s.drop_last()) * 10 + digit_value(s.last())
    }
}

/// The number that the leading digits of `s` spell.
pub open spec fn leading_number(s: Seq<char>) -> nat {
    decimal(s.take(digits_len(s) as int))
}

/// What names are sorted by: a character, or the number that a run of digits spells.
pub struct SortKey {
    pub class: int,
    pub value: int,
}

/// The key of a number: after every character below the digits.
pub open spec fn number_key(n: nat) -> SortKey {
    SortKey { class: 1, value: n as int }
}

/// The key of a character: those above the digits come after every number.
pub open spec fn char_key(c: char) -> SortKey {
    SortKey {
        class: if (c as int) < 48 {
            0
        } else {
            2
        },
        value: c as int,
    }
}

/// Key `a` comes before key `b`.
pub open spec fn key_before(a: SortKey, b: SortKey) -> bool {
    a.class < b.class || a.class == b.class && a.value < b.value
}

/// The sort keys of a name in lower case: one per run of digits, one per other character.
pub open spec fn sort_keys(s: Seq<char>) -> Seq<SortKey>
    decreases s.len(),
{
    if s.len() == 0 {
        Seq::empty()
    } else if is_digit(s[0]) {
        proof {
            lemma_digits_len(s);
        }
        seq![number_key(leading_number(s))] + sort_keys(s.skip(digits_len(s) as int))
    } else {
        seq![char_key(s[0])] + sort_keys(s.skip(1))
    }
}

/// How one thing stands to another in a list.
#[derive(Clone, Copy, Debug, PartialEq, Eq, Structural)]
pub enum Rank {
    Before,
    Same,
    After,
}

/// The order of two sequences of keys: that of the first keys that differ, else of the lengths.
pub open spec fn key_order(a: Seq<SortKey>, b: Seq<SortKey>) -> Rank
    decreases a.len(),
{
    if a.len() == 0 && b.len() == 0 {
        Rank::Same
    } else if a.len() == 0 {
        Rank::Before
    } else if b.len() == 0 {
        Rank::After
    } else if key_before(a[0], b[0]) {
        Rank::Before
    } else if key_before(b[0], a[0]) {
        Rank::After
    } else {
        key_order(a.skip(1), b.skip(1))
    }
}

/// The order of two names: case-insensitive, with runs of digits compared as numbers.
pub open spec fn natural_order(a: Seq<char>, b: Seq<char>) -> Rank {
    key_order(sort_keys(lowercase_of(a)), sort_keys(lowercase_of(b)))
}

proof fn lemma_digits_run(s: Seq<char>, k: int)
    requires
        0 <= k <= s.len(),
        forall|x: int| 0 <= x < k ==> is_digit(#[trigger] s[x]),
        k == s.len() || !is_digit(s[k]),
    ensures
        digits_len(s) == k,
    decreases k,
{
    if k > 0 {
        let t = s.skip(1);
        assert forall|x: int| 0 <= x < k - 1 implies is_digit(#[trigger] t[x]) by {
            assert(t[x] == s[x + 1]);
        }
        lemma_digits_run(t, k - 1);
    }
}

fn code(c: char) -> (r: u32)
    ensures
        r == c as int,
{
    c as u32
}

/// What a digit stands for; none where the character is not a digit.
pub(crate) fn digit(c: char) -> (r: Option<u64>)
    ensures
        r is Some <==> is_digit(c),
        r matches Some(d) ==> d == digit_value(c) && d <= 9,
{
    let n: u32 = code(c);
    if 48 <= n && n <= 57 {
        Some((n - 48) as u64)
    } else {
        None
    }
}

/// An ASCII letter.
pub open spec fn is_letter(c: char) -> bool {
    65 <= (c as int) <= 90 || 97 <= (c as int) <= 122
}

/// Whether the character is an ASCII letter.
pub(crate) fn letter(c: char) -> (r: bool)
    ensures
        r == is_letter(c),
{
    let n: u32 = code(c);
    65 <= n && n <= 90 || 97 <= n && n <= 122
}

/// The end of the run of digits at `i`.
fn run_end(s: &Vec<char>, i: usize) -> (r: usize)
    requires
        i <= s.len(),
    ensures
        r == i + digits_len(s@.skip(i as int)),
        i <= r <= s.len(),
        forall|x: int| i <= x < r ==> is_digit(#[trigger] s@[x]),
{
    let ghost t = s@.skip(i as int);
    let mut k: usize = i;
    while k < s.len() && digit(s[k]).is_some()
        invariant
            i <= k <= s.len(),
            t == s@.skip(i as int),
            forall|x: int| i <= x < k ==> is_digit(#[trigger] s@[x]),
        decreases s.len() - k,
    {
        k = k + 1;
    }
    proof {
        assert forall|x: int| 0 <= x < k - i implies is_digit(#[trigger] t[x]) by {
            assert(t[x] == s@[i + x]);
        }
        if k < s.len() {
            assert(t[k - i] == s@[k as int]);
        }
        lemma_digits_run(t, k - i);
    }
    k
}

/// The order of two numbers.
pub open spec fn number_rank(a: nat, b: nat) -> Rank {
    if a < b {
        Rank::Before
    } else if a > b {
        Rank::After
    } else {
        Rank::Same
    }
}

/// The first digits of a run once it is written with `n` digits, those in front being zeros: the
/// digits of the run that are among the first `k`.
spec fn padded(run: Seq<char>, n: int, k: int) -> Seq<char> {
    run.take(
        if k + run.len() > n {
            k + run.len() - n
        } else {
            0
        },
    )
}

/// Digit `k` of the run from `i` to `end` once it is written with `n` digits.
fn padded_digit(s: &Vec<char>, i: usize, end: usize, n: usize, k: usize) -> (r: u64)
    requires
        i <= end <= s.len(),
        end - i <= n,
        k < n,
        forall|x: int| i <= x < end ==> is_digit(#[trigger] s@[x]),
    ensures
        r <= 9,
        decimal(padded(s@.subrange(i as int, end as int), n as int, k + 1)) == decimal(
            padded(s@.subrange(i as int, end as int), n as int, k as int),
        ) * 10 + r,
{
    let ghost run = s@.subrange(i as int, end as int);
    let blank: usize = n - (end - i);
    if k < blank {
        assert(padded(run, n as int, k + 1) =~= Seq::empty());
        assert(padded(run, n as int, k as int) =~= Seq::empty());
        return 0;
    }
    let at: usize = i + (k - blank);
    let ghost m = k - blank;
    proof {
        assert(run.take(m + 1).drop_last() =~= run.take(m));
        assert(run.take(m + 1).last() == s@[at as int]);
        assert(padded(run, n as int, k + 1) == run.take(m + 1));
        assert(padded(run, n as int, k as int) == run.take(m));
        assert(is_digit(s@[at as int]));
    }
    match digit(s[at]) {
        Some(d) => d,
        None => 0,
    }
}

/// The order of the numbers that two runs of digits spell, however long they are.
fn run_rank(a: &Vec<char>, i: usize, i2: usize, b: &Vec<char>, j: usize, j2: usize) -> (r: Rank)
    requires
        i <= i2 <= a.len(),
        j <= j2 <= b.len(),
        forall|x: int| i <= x < i2 ==> is_digit(#[trigger] a@[x]),
        forall|x: int| j <= x < j2 ==> is_digit(#[trigger] b@[x]),
    ensures
        r == number_rank(
            decimal(a@.subrange(i as int, i2 as int)),
            decimal(b@.subrange(j as int, j2 as int)),
        ),
{
    let ghost x = a@.subrange(i as int, i2 as int);
    let ghost y = b@.subrange(j as int, j2 as int);
    let n: usize = if i2 - i > j2 - j {
        i2 - i
    } else {
        j2 - j
    };
    let mut rank = Rank::Same;
    proof {
        assert(padded(x, n as int, 0) =~= Seq::empty());
        assert(padded(y, n as int, 0) =~= Seq::empty());
    }
    for k in 0..n
        invariant
            i <= i2 <= a.len(),
            j <= j2 <= b.len(),
            i2 - i <= n,
            j2 - j <= n,
            forall|x: int| i <= x < i2 ==> is_digit(#[trigger] a@[x]),
            forall|x: int| j <= x < j2 ==> is_digit(#[trigger] b@[x]),
            x == a@.subrange(i as int, i2 as int),
            y == b@.subrange(j as int, j2 as int),
            rank == number_rank(
                decimal(padded(x, n as int, k as int)),
                decimal(padded(y, n as int, k as int)),
            ),
    {
        let da: u64 = padded_digit(a, i, i2, n, k);
        let db: u64 = padded_digit(b, j, j2, n, k);
        if rank == Rank::Same {
            if da < db {
                rank = Rank::Before;
            } else if da > db {
                rank = Rank::After;
            }
        }
    }
    proof {
        assert(padded(x, n as int, n as int) =~= x);
        assert(padded(y, n as int, n as int) =~= y);
    }
    rank
}

/// Compares two names as a person would list them: without regard to case, and with runs of
/// digits by the numbers that they spell.
pub fn natural_rank(a: &str, b: &str) -> (r: Rank)
    ensures
        r == natural_order(a@, b@),
{
    let la = lowercase(a);
    let lb = lowercase(b);
    let ac = chars_of(la.as_str());
    let bc = chars_of(lb.as_str());
    let mut i: usize = 0;
    let mut j: usize = 0;
    assert(ac@.skip(0) == ac@);
    assert(bc@.skip(0) == bc@);
    loop
        invariant
            i <= ac.len(),
            j <= bc.len(),
            ac@ == lowercase_of(a@),
            bc@ == lowercase_of(b@),
            natural_order(a@, b@) == key_order(
                sort_keys(ac@.skip(i as int)),
                sort_keys(bc@.skip(j as int)),
            ),
        decreases ac.len() - i,
    {
        let ghost s = ac@.skip(i as int);
        let ghost t = bc@.skip(j as int);
        if i == ac.len() && j == bc.len() {
            return Rank::Same;
        }
        if i == ac.len() {
            return Rank::Before;
        }
        if j == bc.len() {
            return Rank::After;
        }
        proof {
            assert(s[0] == ac@[i as int]);
            assert(t[0] == bc@[j as int]);
            lemma_digits_len(s);
            lemma_digits_len(t);
        }
        if digit(ac[i]).is_some() && digit(bc[j]).is_some() {
            let i2: usize = run_end(&ac, i);
            let j2: usize = run_end(&bc, j);
            proof {
                assert(s.take(digits_len(s) as int) =~= ac@.subrange(i as int, i2 as int));
                assert(t.take(digits_len(t) as int) =~= bc@.subrange(j as int, j2 as int));
                assert(s.skip(digits_len(s) as int) == ac@.skip(i2 as int));
                assert(t.skip(digits_len(t) as int) == bc@.skip(j2 as int));
                assert(sort_keys(s).skip(1) == sort_keys(ac@.skip(i2 as int)));
                assert(sort_keys(t).skip(1) == sort_keys(bc@.skip(j2 as int)));
            }
            let rank = run_rank(&ac, i, i2, &bc, j, j2);
            if rank != Rank::Same {
                return rank;
            }
            i = i2;
            j = j2;
        } else {
            let ca: u32 = code(ac[i]);
            let cb: u32 = code(bc[j]);
            if ca < cb {
                return Rank::Before;
            }
            if ca > cb {
                return Rank::After;
            }
            proof {
                assert(s.skip(1) == ac@.skip(i + 1));
                assert(t.skip(1) == bc@.skip(j + 1));
                assert(sort_keys(s).skip(1) == sort_keys(ac@.skip(i + 1)));
                assert(sort_keys(t).skip(1) == sort_keys(bc@.skip(j + 1)));
            }
            i = i + 1;
            j = j + 1;
        }
    }
}

/// [`natural_rank`] as an ordering.
pub fn natural_cmp(a: &str, b: &str) -> (r: Ordering)
    ensures
        r == match natural_order(a@, b@) {
            Rank::Before => Ordering::Less,
            Rank::Same => Ordering::Equal,
            Rank::After => Ordering::Greater,
        },
{
    match natural_rank(a, b) {
        Rank::Before => Ordering::Less,
        Rank::Same => Ordering::Equal,
        Rank::After => Ordering::Greater,
    }
}

proof fn lemma_key_order(a: Seq<SortKey>, b: Seq<SortKey>, c: Seq<SortKey>)
    ensures
        key_order(a, a) == Rank::Same,
        key_order(a, b) == Rank::Before <==> key_order(b, a) == Rank::After,
        key_order(a, b) == Rank::Same <==> a == b,
        key_order(a, b) != Rank::After && key_order(b, c) != Rank::After ==> key_order(
            a,
            c,
        ) != Rank::After,
    decreases a.len(),
{
    if a.len() > 0 {
        lemma_key_order(a.skip(1), b.skip(1), c.skip(1));
        if b.len() > 0 && a[0] == b[0] && a.skip(1) == b.skip(1) {
            assert forall|i: int| 0 <= i < a.len() implies a[i] == b[i] by {
                if i > 0 {
                    assert(a.skip(1)[i - 1] == a[i]);
                    assert(b.skip(1)[i - 1] == b[i]);
                }
            }
            assert(a.skip(1).len() == b.skip(1).len());
            assert(a =~= b);
        }
    } else if b.len() == 0 {
        assert(a =~= b);
    }
}

/// The order of names is total: swapping the names swaps the answer, it is transitive, and every
/// name compares equal with itself. Names compare equal just where they have the same characters
/// and numbers in lower case, whatever the number of zeros that a number begins with.
pub proof fn natural_order_is_total(a: Seq<char>, b: Seq<char>, c: Seq<char>)
    ensures
        natural_order(a, a) == Rank::Same,
        natural_order(a, b) == Rank::Before <==> natural_order(b, a) == Rank::After,
        natural_order(a, b) == Rank::Same <==> sort_keys(lowercase_of(a)) == sort_keys(
            lowercase_of(b),
        ),
        natural_order(a, b) != Rank::After && natural_order(b, c) != Rank::After
            ==> natural_order(a, c) != Rank::After,
{
    lemma_key_order(
        sort_keys(lowercase_of(a)),
        sort_keys(lowercase_of(b)),
        sort_keys(lowercase_of(c)),
    );
}

// ---- code point order ---------------------------------------------------------------------

/// `a` comes before `b` by the code points of their characters.
pub open spec fn text_before(a: Seq<char>, b: Seq<char>) -> bool
    decreases a.len(),
{
    if b.len() == 0 {
        false
    } else if a.len() == 0 {
        true
    } else if a[0] != b[0] {
        (a[0] as int) < (b[0] as int)
    } else {
        text_before(a.skip(1), b.skip(1))
    }
}

pub(crate) proof fn lemma_text_before(x: Seq<char>, y: Seq<char>, z: Seq<char>)
    ensures
        text_before(x, y) && text_before(y, z) ==> text_before(x, z),
        text_before(x, z) ==> text_before(x, y) || text_before(y, z),
        !text_before(x, x),
    decreases x.len(),
{
    if x.len() > 0 && y.len() > 0 && z.len() > 0 {
        lemma_text_before(x.skip(1), y.skip(1), z.skip(1));
    } else if x.len() > 0 {
        lemma_text_before(x.skip(1), x.skip(1), x.skip(1));
    }
}

/// Whether `a` comes before `b` by the code points of their characters.
pub fn chars_before(a: &Vec<char>, b: &Vec<char>) -> (r: bool)
    ensures
        r == text_before(a@, b@),
{
    let mut i: usize = 0;
    assert(a@.skip(0) == a@);
    assert(b@.skip(0) == b@);
    while i < a.len() && i < b.len() && a[i] == b[i]
        invariant
            i <= a.len(),
            i <= b.len(),
            text_before(a@, b@) == text_before(a@.skip(i as int), b@.skip(i as int)),
        decreases a.len() - i,
    {
        assert(a@.skip(i as int).skip(1) == a@.skip(i + 1));
        assert(b@.skip(i as int).skip(1) == b@.skip(i + 1));
        i = i + 1;
    }
    if i == b.len() {
        return false;
    }
    if i == a.len() {
        return true;
    }
    code(a[i]) < code(b[i])
}

/// A name, listed by its code points.
pub struct NameKey {
    pub chars: Vec<char>,
}

impl Keyed for NameKey {
    open spec fn before(self, other: Self) -> bool {
        text_before(self.chars@, other.chars@)
    }

    fn comes_before(&self, other: &Self) -> (r: bool) {
        chars_before(&self.chars, &other.chars)
    }

    proof fn ordered(x: Self, y: Self, z: Self) {
        lemma_text_before(x.chars@, y.chars@, z.chars@);
    }
}

// ---- building texts ------------------------------------------------------------------------

/// A number in decimal.
pub open spec fn number_text(n: nat) -> Seq<char>
    decreases n,
{
    if n < 10 {
        seq![(48 + n) as char]
    } else {
        number_text(n / 10).push((48 + n % 10) as char)
    }
}

fn digit_of(n: u64) -> (r: char)
    requires
        n < 10,
    ensures
        r == (48 + n) as char,
{
    (48 + n as u8) as char
}

/// Puts a number in decimal at the end.
pub fn push_number(out: &mut Vec<char>, n: u64)
    ensures
        final(out)@ == old(out)@ + number_text(n as nat),
    decreases n,
{
    if n < 10 {
        out.push(digit_of(n));
        assert(out@ =~= old(out)@ + number_text(n as nat));
    } else {
        push_number(out, n / 10);
        out.push(digit_of(n % 10));
        assert(out@ =~= old(out)@ + number_text(n as nat));
    }
}

/// Puts a text at the end.
pub fn push_all(out: &mut Vec<char>, more: &str)
    ensures
        final(out)@ == old(out)@ + more@,
{
    let chars = chars_of(more);
    let n: usize = chars.len();
    for i in 0..n
        invariant
            n == chars.len(),
            chars@ == more@,
            out@ == old(out)@ + more@.take(i as int),
    {
        out.push(chars[i]);
        assert(out@ =~= old(out)@ + more@.take(i + 1));
    }
    assert(more@.take(n as int) =~= more@);
}

// ---- what the orders mean ---------------------------------------------------------------------

/// The decimal form of a number reads as that number, in digits only and without a zero in front.
pub proof fn numbers_read_as_they_are_written(n: nat)
    ensures
        decimal(number_text(n)) == n,
        number_text(n).len() > 0,
        forall|i: int|
            0 <= i < number_text(n).len() ==> '0' <= #[trigger] number_text(n)[i] <= '9',
        number_text(n)[0] == '0' ==> n == 0,
    decreases n,
{
    if n >= 10 {
        numbers_read_as_they_are_written(n / 10);
        let front = number_text(n / 10);
        let c = (48 + n % 10) as char;
        assert(front.push(c).drop_last() =~= front);
        assert(number_text(n)[0] == front[0]);
    } else {
        let c = (48 + n) as char;
        assert(seq![c].drop_last() =~= Seq::<char>::empty());
        assert(decimal(seq![c].drop_last()) == 0);
    }
}

/// Each digit counts ten times what the same digit counts one place further on.
pub proof fn digits_count_by_their_place(s: Seq<char>, c: char)
    requires
        '0' <= c <= '9',
    ensures
        decimal(s.push(c)) == 10 * decimal(s) + (c as int - '0' as int),
        decimal(Seq::<char>::empty()) == 0,
{
    assert(s.push(c).drop_last() =~= s);
}

/// Texts compare by the first character in which they differ, and a text comes before its own
/// continuations.
pub proof fn the_first_difference_decides(a: Seq<char>, b: Seq<char>, k: int)
    requires
        0 <= k <= a.len(),
        k <= b.len(),
        forall|i: int| 0 <= i < k ==> #[trigger] a[i] == b[i],
    ensures
        k == a.len() && k < b.len() ==> text_before(a, b) && !text_before(b, a),
        k < a.len() && k < b.len() && a[k] != b[k] ==> (text_before(a, b) <==> (a[k] as int) < (
        b[k] as int)),
        k == a.len() && k == b.len() ==> !text_before(a, b),
    decreases k,
{
    if k > 0 {
        assert(a[0] == b[0]);
        assert forall|i: int| 0 <= i < k - 1 implies #[trigger] a.skip(1)[i] == b.skip(1)[i] by {
            assert(a[i + 1] == b[i + 1]);
        }
        the_first_difference_decides(a.skip(1), b.skip(1), k - 1);
        if k < a.len() && k < b.len() {
            assert(a.skip(1)[k - 1] == a[k] && b.skip(1)[k - 1] == b[k]);
        }
    }
}

proof fn lemma_same_front(p: Seq<char>, x: Seq<char>, y: Seq<char>)
    requires
        forall|i: int| 0 <= i < p.len() ==> !is_digit(#[trigger] p[i]),
    ensures
        key_order(sort_keys(p + x), sort_keys(p + y)) == key_order(sort_keys(x), sort_keys(y)),
    decreases p.len(),
{
    if p.len() == 0 {
        assert(p + x =~= x);
        assert(p + y =~= y);
    } else {
        let q = p.skip(1);
        assert((p + x).skip(1) =~= q + x);
        assert((p + y).skip(1) =~= q + y);
        assert(!is_digit(p[0]));
        assert((p + x)[0] == p[0] && (p + y)[0] == p[0]);
        assert forall|i: int| 0 <= i < q.len() implies !is_digit(#[trigger] q[i]) by {
            assert(!is_digit(p[i + 1]));
        }
        lemma_same_front(q, x, y);
        let a = seq![char_key(p[0])] + sort_keys(q + x);
        let b = seq![char_key(p[0])] + sort_keys(q + y);
        assert(a.skip(1) =~= sort_keys(q + x));
        assert(b.skip(1) =~= sort_keys(q + y));
        assert(a[0] == b[0]);
    }
}

proof fn lemma_run_len(m: Seq<char>, u: Seq<char>)
    requires
        forall|i: int| 0 <= i < m.len() ==> is_digit(#[trigger] m[i]),
        u.len() > 0 ==> !is_digit(u[0]),
    ensures
        digits_len(m + u) == m.len(),
    decreases m.len(),
{
    if m.len() > 0 {
        assert((m + u)[0] == m[0]);
        assert((m + u).skip(1) =~= m.skip(1) + u);
        assert forall|i: int| 0 <= i < m.skip(1).len() implies is_digit(#[trigger] m.skip(1)[i]) by {
            assert(is_digit(m[i + 1]));
        }
        lemma_run_len(m.skip(1), u);
    } else {
        assert(m + u =~= u);
    }
}

proof fn lemma_first_keys(x: Seq<char>, y: Seq<char>)
    requires
        x.len() > 0,
        y.len() > 0,
    ensures
        ({
            let a = sort_keys(x);
            let b = sort_keys(y);
            &&& a.len() > 0 && b.len() > 0
            &&& key_before(a[0], b[0]) ==> key_order(a, b) == Rank::Before
            &&& a[0] == if is_digit(x[0]) {
                number_key(leading_number(x))
            } else {
                char_key(x[0])
            }
            &&& b[0] == if is_digit(y[0]) {
                number_key(leading_number(y))
            } else {
                char_key(y[0])
            }
        }),
{
}

/// Names that begin alike are ordered by the numbers in which they differ first, whatever the
/// number of their digits.
pub proof fn numbers_in_names_compare_by_value(
    a: Seq<char>,
    b: Seq<char>,
    p: Seq<char>,
    m: Seq<char>,
    u: Seq<char>,
    n: Seq<char>,
    v: Seq<char>,
)
    requires
        lowercase_of(a) == p + (m + u),
        lowercase_of(b) == p + (n + v),
        forall|i: int| 0 <= i < p.len() ==> !('0' <= #[trigger] p[i] <= '9'),
        m.len() > 0,
        n.len() > 0,
        forall|i: int| 0 <= i < m.len() ==> '0' <= #[trigger] m[i] <= '9',
        forall|i: int| 0 <= i < n.len() ==> '0' <= #[trigger] n[i] <= '9',
        u.len() > 0 ==> !('0' <= u[0] <= '9'),
        v.len() > 0 ==> !('0' <= v[0] <= '9'),
    ensures
        decimal(m) < decimal(n) ==> natural_order(a, b) == Rank::Before,
        decimal(n) < decimal(m) ==> natural_order(a, b) == Rank::After,
{
    assert(forall|i: int| 0 <= i < p.len() ==> !is_digit(#[trigger] p[i]));
    lemma_same_front(p, m + u, n + v);
    lemma_run_len(m, u);
    lemma_run_len(n, v);
    assert((m + u).take(m.len() as int) =~= m);
    assert((n + v).take(n.len() as int) =~= n);
    assert((m + u)[0] == m[0] && (n + v)[0] == n[0]);
    lemma_first_keys(m + u, n + v);
    lemma_first_keys(n + v, m + u);
}

/// Names that begin alike are ordered by the character in which they differ first, where that is
/// no digit in either; what ends first comes first.
pub proof fn letters_in_names_compare_in_order(
    a: Seq<char>,
    b: Seq<char>,
    p: Seq<char>,
    x: Seq<char>,
    y: Seq<char>,
)
    requires
        lowercase_of(a) == p + x,
        lowercase_of(b) == p + y,
        forall|i: int| 0 <= i < p.len() ==> !('0' <= #[trigger] p[i] <= '9'),
    ensures
        x.len() == 0 && y.len() > 0 ==> natural_order(a, b) == Rank::Before,
        x.len() > 0 && y.len() > 0 && !('0' <= x[0] <= '9') && !('0' <= y[0] <= '9') && (
        x[0] as int) < (y[0] as int) ==> natural_order(a, b) == Rank::Before,
        x.len() > 0 && y.len() > 0 && '0' <= x[0] <= '9' && y[0] > '9' ==> natural_order(a, b)
            == Rank::Before,
        x.len() > 0 && y.len() > 0 && x[0] < '0' && '0' <= y[0] <= '9' ==> natural_order(a, b)
            == Rank::Before,
{
    assert(forall|i: int| 0 <= i < p.len() ==> !is_digit(#[trigger] p[i]));
    lemma_same_front(p, x, y);
    if x.len() > 0 && y.len() > 0 {
        lemma_first_keys(x, y);
    }
}

/// Names whose text in small letters is the same are the same to the order.
pub proof fn the_order_ignores_capitals(a: Seq<char>, b: Seq<char>)
    requires
        lowercase_of(a) == lowercase_of(b),
    ensures
        natural_order(a, b) == Rank::Same,
{
    natural_order_is_total(a, b, a);
}

} // verus!
