//! Text as a sequence of characters: decimal numbers, trimming, splitting and
//! searching, each with an exact description over `Seq<char>`.
use vstd::prelude::*;

verus! {

/// `String::push` appends one character at the end.
pub assume_specification[ String::push ](s: &mut String, c: char)
    ensures
        final(s)@ == old(s)@.push(c),
;

/// The views of a sequence of strings.
pub open spec fn texts(items: Seq<String>) -> Seq<Seq<char>> {
    items.map_values(|s: String| s@)
}

/// The characters with the Unicode property `White_Space`.
pub open spec fn is_white_space(c: char) -> bool {
    let n = c as u32;
    ||| 0x09 <= n <= 0x0d
    ||| n == 0x20
    ||| n == 0x85
    ||| n == 0xa0
    ||| n == 0x1680
    ||| 0x2000 <= n <= 0x200a
    ||| n == 0x2028
    ||| n == 0x2029
    ||| n == 0x202f
    ||| n == 0x205f
    ||| n == 0x3000
}

/// `char::is_whitespace` tells whether a character has the Unicode property
/// `White_Space`.
pub assume_specification[ char::is_whitespace ](c: char) -> (r: bool)
    ensures
        r == is_white_space(c),
;

/// The decimal digit for `d`.
pub open spec fn digit_char(d: nat) -> char {
    (0x30 + d) as char
}

pub open spec fn is_digit(c: char) -> bool {
    0x30 <= c as u32 <= 0x39
}

pub open spec fn digit_value(c: char) -> nat {
    (c as u32 - 0x30) as nat
}

/// `n` in decimal notation, without leading zeros.
pub open spec fn decimal_text(n: nat) -> Seq<char>
    decreases n,
{
    if n < 10 {
        seq![digit_char(n)]
    } else {
        decimal_text(n / 10).push(digit_char(n % 10))
    }
}

/// The number that a sequence of decimal digits stands for.
pub open spec fn decimal_value(s: Seq<char>) -> nat
    decreases s.len(),
{
    if s.len() == 0 {
        0
    } else {
        decimal_value(s.drop_last()) * 10 + digit_value(s.last())
    }
}

pub open spec fn all_digits(s: Seq<char>) -> bool {
    forall|i: int| 0 <= i < s.len() ==> is_digit(#[trigger] s[i])
}

/// What is left of a number's text behind an optional plus sign.
pub open spec fn unsigned_part(s: Seq<char>) -> Seq<char> {
    if s.len() > 0 && s[0] == '+' {
        s.skip(1)
    } else {
        s
    }
}

/// The number that `s` denotes: an optional plus sign, then at least one
/// digit, with a value of at most `max`.
pub open spec fn parsed_unsigned(s: Seq<char>, max: nat) -> Option<nat> {
    let rest = unsigned_part(s);
    if rest.len() > 0 && all_digits(rest) && decimal_value(rest) <= max {
        Some(decimal_value(rest))
    } else {
        None
    }
}

pub open spec fn trim_start_text(s: Seq<char>) -> Seq<char>
    decreases s.len(),
{
    if s.len() > 0 && is_white_space(s[0]) {
        trim_start_text(s.skip(1))
    } else {
        s
    }
}

pub open spec fn trim_end_text(s: Seq<char>) -> Seq<char>
    decreases s.len(),
{
    if s.len() > 0 && is_white_space(s.last()) {
        trim_end_text(s.drop_last())
    } else {
        s
    }
}

/// `s` without white space at either end.
pub open spec fn trimmed(s: Seq<char>) -> Seq<char> {
    trim_end_text(trim_start_text(s))
}

/// The pieces of `s` between occurrences of `sep`; there is one more piece
/// than there are separators.
pub open spec fn split_text(s: Seq<char>, sep: char) -> Seq<Seq<char>>
    decreases s.len(),
{
    if s.len() == 0 {
        seq![Seq::<char>::empty()]
    } else {
        let pieces = split_text(s.drop_last(), sep);
        if s.last() == sep {
            pieces.push(Seq::<char>::empty())
        } else {
            pieces.drop_last().push(pieces.last().push(s.last()))
        }
    }
}

/// `pieces` strung together with `sep` between them.
pub open spec fn join_text(pieces: Seq<Seq<char>>, sep: char) -> Seq<char>
    decreases pieces.len(),
{
    if pieces.len() == 0 {
        Seq::<char>::empty()
    } else if pieces.len() == 1 {
        pieces[0]
    } else {
        join_text(pieces.drop_last(), sep).push(sep) + pieces.last()
    }
}

/// Whether `needle` occurs in `s`.
pub open spec fn occurs_in(needle: Seq<char>, s: Seq<char>) -> bool {
    exists|i: int|
        0 <= i && i + needle.len() <= s.len() && #[trigger] s.subrange(i, i + needle.len())
            == needle
}

/// The decimal notation of a number consists of digits and denotes that
/// number.
pub proof fn decimal_text_denotes(n: nat)
    ensures
        decimal_text(n).len() > 0,
        all_digits(decimal_text(n)),
        decimal_value(decimal_text(n)) == n,
    decreases n,
{
    let t = decimal_text(n);
    if n < 10 {
        assert(t.drop_last() =~= Seq::<char>::empty());
        assert(decimal_value(t.drop_last()) == 0);
        assert(t.last() == digit_char(n));
    } else {
        decimal_text_denotes(n / 10);
        assert(t.drop_last() =~= decimal_text(n / 10));
        assert forall|i: int| 0 <= i < t.len() implies is_digit(#[trigger] t[i]) by {
            if i < t.len() - 1 {
                assert(t[i] == decimal_text(n / 10)[i]);
            }
        }
    }
}

/// Parsing the decimal notation of a number gives the number back.
pub proof fn parse_inverts_decimal(n: nat, max: nat)
    requires
        n <= max,
    ensures
        parsed_unsigned(decimal_text(n), max) == Some(n),
{
    decimal_text_denotes(n);
    assert(is_digit(decimal_text(n)[0]));
}

/// Different numbers have different decimal notations.
pub proof fn decimal_text_injective(a: nat, b: nat)
    requires
        decimal_text(a) == decimal_text(b),
    ensures
        a == b,
{
    decimal_text_denotes(a);
    decimal_text_denotes(b);
}

/// Splitting loses nothing: no piece holds the separator, and the pieces
/// joined by it give the text back.
pub proof fn split_then_join(s: Seq<char>, sep: char)
    ensures
        split_text(s, sep).len() >= 1,
        join_text(split_text(s, sep), sep) == s,
        forall|i: int|
            0 <= i < split_text(s, sep).len() ==> !(#[trigger] split_text(s, sep)[i]).contains(sep),
    decreases s.len(),
{
    let all = split_text(s, sep);
    if s.len() > 0 {
        split_then_join(s.drop_last(), sep);
        let before = split_text(s.drop_last(), sep);
        if s.last() == sep {
            assert(all.drop_last() =~= before);
            assert(join_text(all, sep) =~= s);
        } else {
            assert(all.drop_last() =~= before.drop_last());
            let piece = before.last().push(s.last());
            assert forall|j: int| 0 <= j < piece.len() implies piece[j] != sep by {
                if j < piece.len() - 1 {
                    assert(!before[before.len() - 1].contains(sep));
                    assert(piece[j] == before.last()[j]);
                }
            }
            assert(all.last() == piece);
            assert(join_text(before, sep) == s.drop_last());
            if before.len() > 1 {
                assert(join_text(all, sep) =~= join_text(before.drop_last(), sep).push(sep) + piece);
                assert(join_text(all, sep) =~= join_text(before, sep).push(s.last()));
            }
            assert(s =~= s.drop_last().push(s.last()));
        }
        assert forall|i: int| 0 <= i < all.len() implies !(#[trigger] all[i]).contains(sep) by {
            if i < before.len() && i < all.len() - 1 {
                assert(all[i] == before[i]);
            }
        }
    }
}

/// `a` comes before `b` in the order of their characters' code points.
pub open spec fn text_less(a: Seq<char>, b: Seq<char>) -> bool
    decreases b.len(),
{
    if b.len() == 0 {
        false
    } else if a.len() == 0 {
        true
    } else if a[0] == b[0] {
        text_less(a.skip(1), b.skip(1))
    } else {
        (a[0] as u32) < (b[0] as u32)
    }
}

proof fn code_point_injective(x: char, y: char)
    ensures
        x as u32 == y as u32 ==> x == y,
{
}

/// Of two different texts exactly one comes before the other, and no text
/// comes before itself.
pub proof fn text_less_total(a: Seq<char>, b: Seq<char>)
    ensures
        !(text_less(a, b) && text_less(b, a)),
        a == b <==> !text_less(a, b) && !text_less(b, a),
    decreases a.len(),
{
    if a.len() > 0 && b.len() > 0 {
        code_point_injective(a[0], b[0]);
        if a[0] == b[0] {
            text_less_total(a.skip(1), b.skip(1));
            if a.skip(1) == b.skip(1) {
                assert(a =~= seq![a[0]] + a.skip(1));
                assert(b =~= seq![b[0]] + b.skip(1));
            }
        }
    } else {
        if a.len() == 0 && b.len() == 0 {
            assert(a =~= b);
        }
    }
}

/// The order of texts is transitive.
pub proof fn text_less_transitive(a: Seq<char>, b: Seq<char>, c: Seq<char>)
    requires
        text_less(a, b),
        text_less(b, c),
    ensures
        text_less(a, c),
    decreases a.len(),
{
    if a.len() > 0 {
        if a[0] == b[0] && b[0] == c[0] {
            text_less_transitive(a.skip(1), b.skip(1), c.skip(1));
        }
    }
}

/// `items` are in ascending order, without repetition.
pub open spec fn texts_ascending(items: Seq<Seq<char>>) -> bool {
    forall|i: int, j: int|
        0 <= i < j < items.len() ==> text_less(#[trigger] items[i], #[trigger] items[j])
}

/// The characters of `s`, for access by position.
pub fn chars_of(s: &str) -> (r: Vec<char>)
    ensures
        r@ == s@,
{
    let mut r: Vec<char> = Vec::new();
    for c in it: s.chars()
        invariant
            it.seq() == s@,
            r@ == s@.take(it.index() as int),
    {
        r.push(c);
        assert(r@ =~= s@.take(it.index() + 1));
    }
    assert(s@.take(s@.len() as int) =~= s@);
    r
}

/// The string with the characters `chars[from..to]`.
pub fn text_of(chars: &Vec<char>, from: usize, to: usize) -> (r: String)
    requires
        from <= to <= chars@.len(),
    ensures
        r@ == chars@.subrange(from as int, to as int),
{
    let mut r: String = String::new();
    let mut i: usize = from;
    assert(r@ =~= chars@.subrange(from as int, from as int));
    while i < to
        invariant
            from <= i <= to <= chars@.len(),
            r@ == chars@.subrange(from as int, i as int),
        decreases to - i,
    {
        r.push(chars[i]);
        i = i + 1;
        assert(r@ =~= chars@.subrange(from as int, i as int));
    }
    r
}

/// `n` in decimal notation.
pub fn decimal(n: u64) -> (r: String)
    ensures
        r@ == decimal_text(n as nat),
    decreases n,
{
    if n < 10 {
        let mut r: String = String::new();
        r.push((0x30 + n as u8) as char);
        assert(r@ =~= decimal_text(n as nat));
        r
    } else {
        let mut r: String = decimal(n / 10);
        r.push((0x30 + (n % 10) as u8) as char);
        r
    }
}

/// The upper-case hexadecimal digit for `d`.
pub open spec fn hex_char(d: nat) -> char {
    if d < 10 {
        (0x30 + d) as char
    } else {
        (0x37 + d) as char
    }
}

/// The digits of `n` in upper-case hexadecimal notation.
pub open spec fn hex_digits(n: nat) -> Seq<char>
    decreases n,
{
    if n < 16 {
        seq![hex_char(n)]
    } else {
        hex_digits(n / 16).push(hex_char(n % 16))
    }
}

fn hex_digit(d: u8) -> (r: char)
    requires
        d < 16,
    ensures
        r == hex_char(d as nat),
{
    if d < 10 {
        (0x30 + d) as char
    } else {
        (0x37 + d) as char
    }
}

/// `n` in upper-case hexadecimal notation, without a prefix.
pub fn hex(n: u32) -> (r: String)
    ensures
        r@ == hex_digits(n as nat),
    decreases n,
{
    if n < 16 {
        let mut r: String = String::new();
        r.push(hex_digit(n as u8));
        assert(r@ =~= hex_digits(n as nat));
        r
    } else {
        let mut r: String = hex(n / 16);
        r.push(hex_digit((n % 16) as u8));
        r
    }
}

/// Two strings joined.
pub fn join2(a: &str, b: &str) -> (r: String)
    ensures
        r@ == a@ + b@,
{
    let mut r: String = a.to_owned();
    r.append(b);
    r
}

/// Three strings joined.
pub fn join3(a: &str, b: &str, c: &str) -> (r: String)
    ensures
        r@ == a@ + b@ + c@,
{
    let mut r: String = join2(a, b);
    r.append(c);
    r
}

/// Whether two strings are equal, character by character.
pub fn same_text(a: &str, b: &str) -> (r: bool)
    ensures
        r == (a@ == b@),
{
    a.to_owned() == b.to_owned()
}

/// Whether `a` comes before `b`.
pub fn comes_before(a: &str, b: &str) -> (r: bool)
    ensures
        r == text_less(a@, b@),
{
    let left: Vec<char> = chars_of(a);
    let right: Vec<char> = chars_of(b);
    let mut i: usize = 0;
    assert(a@.skip(0) =~= a@);
    assert(b@.skip(0) =~= b@);
    while i < left.len() && i < right.len()
        invariant
            left@ == a@,
            right@ == b@,
            i <= left@.len(),
            i <= right@.len(),
            text_less(a@, b@) == text_less(a@.skip(i as int), b@.skip(i as int)),
        decreases left@.len() - i,
    {
        let x: u32 = left[i] as u32;
        let y: u32 = right[i] as u32;
        proof {
            code_point_injective(a@[i as int], b@[i as int]);
        }
        if x != y {
            return x < y;
        }
        assert(a@.skip(i as int).skip(1) =~= a@.skip(i + 1));
        assert(b@.skip(i as int).skip(1) =~= b@.skip(i + 1));
        i = i + 1;
    }
    i < right.len()
}

/// Puts `item` in its place in an ascending list, unless it is there already.
pub fn insert_ascending(items: &mut Vec<String>, item: &str)
    requires
        texts_ascending(texts(old(items)@)),
    ensures
        texts_ascending(texts(final(items)@)),
        texts(final(items)@).to_set() == texts(old(items)@).to_set().insert(item@),
{
    let ghost before = texts(items@);
    let mut at: usize = 0;
    while at < items.len() && comes_before(items[at].as_str(), item)
        invariant
            at <= items@.len(),
            texts(items@) == before,
            forall|j: int| 0 <= j < at ==> text_less(#[trigger] before[j], item@),
        decreases items@.len() - at,
    {
        assert(before[at as int] == items@[at as int]@);
        at = at + 1;
    }
    if at < items.len() && same_text(items[at].as_str(), item) {
        assert(before[at as int] == item@);
        assert(before.to_set() =~= before.to_set().insert(item@));
        return ;
    }
    items.insert(at, item.to_owned());
    proof {
        let after = texts(items@);
        assert(after =~= before.insert(at as int, item@));
        assert forall|j: int| at <= j < before.len() implies text_less(item@, #[trigger] before[j]) by {
            text_less_total(before[at as int], item@);
            if j > at {
                text_less_transitive(item@, before[at as int], before[j]);
            }
        }
        assert forall|i: int, j: int| 0 <= i < j < after.len() implies text_less(
            #[trigger] after[i],
            #[trigger] after[j],
        ) by {
            let bi = if i < at { i } else { i - 1 };
            let bj = if j < at { j } else { j - 1 };
            if i != at && j != at {
                assert(after[i] == before[bi] && after[j] == before[bj]);
            } else if i == at {
                assert(after[j] == before[bj]);
            } else {
                assert(after[i] == before[bi]);
            }
        }
        assert forall|t: Seq<char>| before.to_set().insert(item@).contains(t) implies after.to_set().contains(
            t,
        ) by {
            if t == item@ {
                assert(after[at as int] == t);
            } else {
                let j = choose|j: int| 0 <= j < before.len() && before[j] == t;
                assert(after[if j < at { j } else { j + 1 }] == t);
            }
        }
        assert forall|t: Seq<char>| after.to_set().contains(t) implies before.to_set().insert(
            item@,
        ).contains(t) by {
            let j = choose|j: int| 0 <= j < after.len() && after[j] == t;
            if j != at {
                assert(before[if j < at { j } else { j - 1 }] == t);
            }
        }
        assert(after.to_set() =~= before.to_set().insert(item@));
    }
}

/// The number that `s` denotes, if it is an unsigned number of at most `max`.
pub fn parse_unsigned(s: &str, max: u64) -> (r: Option<u64>)
    ensures
        match r {
            Some(n) => parsed_unsigned(s@, max as nat) == Some(n as nat),
            None => parsed_unsigned(s@, max as nat) is None,
        },
{
    let chars: Vec<char> = chars_of(s);
    let len: usize = chars.len();
    let mut i: usize = 0;
    if len > 0 && chars[0] == '+' {
        i = 1;
    }
    let ghost rest = unsigned_part(s@);
    assert(rest =~= s@.skip(i as int));
    if i == len {
        return None;
    }
    let ghost start = i as int;
    let mut n: u64 = 0;
    assert(rest.take(0) =~= Seq::<char>::empty());
    while i < len
        invariant
            chars@ == s@,
            len == s@.len(),
            0 <= start <= i <= len,
            rest == unsigned_part(s@),
            rest == s@.skip(start),
            all_digits(rest.take(i - start)),
            n == decimal_value(rest.take(i - start)),
            n <= max,
        decreases len - i,
    {
        let c: u32 = chars[i] as u32;
        assert(c == rest[i - start] as u32);
        if c < 0x30 || c > 0x39 {
            assert(!is_digit(rest[i - start]));
            return None;
        }
        let d: u64 = (c - 0x30) as u64;
        let ghost upto = rest.take(i - start + 1);
        assert(upto.drop_last() =~= rest.take(i - start));
        assert(decimal_value(upto) == n * 10 + d);
        if d > max || n > (max - d) / 10 {
            proof {
                decimal_value_grows(rest, i - start + 1);
            }
            return None;
        }
        n = n * 10 + d;
        assert forall|j: int| 0 <= j < upto.len() implies is_digit(#[trigger] upto[j]) by {
            if j < i - start {
                assert(upto[j] == rest.take(i - start)[j]);
            }
        }
        i = i + 1;
    }
    assert(rest.take(rest.len() as int) =~= rest);
    Some(n)
}

proof fn decimal_value_grows(s: Seq<char>, k: int)
    requires
        0 <= k <= s.len(),
    ensures
        decimal_value(s.take(k)) <= decimal_value(s),
    decreases s.len(),
{
    if k == s.len() {
        assert(s.take(k) =~= s);
    } else {
        decimal_value_grows(s.drop_last(), k);
        assert(s.drop_last().take(k) =~= s.take(k));
    }
}

/// `s` without white space at either end.
pub fn trim(s: &str) -> (r: String)
    ensures
        r@ == trimmed(s@),
{
    let chars: Vec<char> = chars_of(s);
    let len: usize = chars.len();
    let mut from: usize = 0;
    assert(s@.skip(0) =~= s@);
    while from < len && chars[from].is_whitespace()
        invariant
            chars@ == s@,
            len == s@.len(),
            from <= len,
            trim_start_text(s@) == trim_start_text(s@.skip(from as int)),
        decreases len - from,
    {
        assert(s@.skip(from as int).skip(1) =~= s@.skip(from + 1));
        from = from + 1;
    }
    let ghost front = s@.skip(from as int);
    assert(trim_start_text(s@) == front);
    let mut to: usize = len;
    assert(s@.subrange(from as int, to as int) =~= front);
    while to > from && chars[to - 1].is_whitespace()
        invariant
            chars@ == s@,
            len == s@.len(),
            from <= to <= len,
            trim_end_text(front) == trim_end_text(s@.subrange(from as int, to as int)),
        decreases to,
    {
        assert(s@.subrange(from as int, to as int).drop_last() =~= s@.subrange(
            from as int,
            to - 1,
        ));
        to = to - 1;
    }
    text_of(&chars, from, to)
}

/// The pieces of `s` between occurrences of `sep`.
pub fn split_on(s: &str, sep: char) -> (r: Vec<String>)
    ensures
        texts(r@) == split_text(s@, sep),
{
    let chars: Vec<char> = chars_of(s);
    let mut done: Vec<String> = Vec::new();
    let mut piece: String = String::new();
    let mut i: usize = 0;
    let ghost pieces = texts(done@).push(piece@);
    assert(pieces =~= split_text(s@.take(0), sep));
    while i < chars.len()
        invariant
            chars@ == s@,
            i <= s@.len(),
            pieces == texts(done@).push(piece@),
            pieces == split_text(s@.take(i as int), sep),
        decreases s@.len() - i,
    {
        let c: char = chars[i];
        let ghost upto = s@.take(i + 1);
        assert(upto.drop_last() =~= s@.take(i as int));
        assert(pieces.drop_last() =~= texts(done@));
        if c == sep {
            done.push(piece);
            piece = String::new();
        } else {
            piece.push(c);
        }
        proof {
            let now = texts(done@).push(piece@);
            assert(now =~= split_text(upto, sep));
            pieces = now;
        }
        i = i + 1;
    }
    assert(s@.take(s@.len() as int) =~= s@);
    done.push(piece);
    assert(texts(done@) =~= pieces);
    done
}

/// Whether `chars[at..]` starts with `needle`.
fn matches_at(chars: &Vec<char>, needle: &Vec<char>, at: usize) -> (r: bool)
    requires
        at + needle@.len() <= chars@.len(),
    ensures
        r == (chars@.subrange(at as int, at + needle@.len()) == needle@),
{
    let len: usize = chars.len();
    let mut k: usize = 0;
    while k < needle.len()
        invariant
            at + needle@.len() <= chars@.len(),
            len == chars@.len(),
            k <= needle@.len(),
            forall|j: int| 0 <= j < k ==> chars@[at + j] == needle@[j],
        decreases needle@.len() - k,
    {
        if chars[at + k] != needle[k] {
            assert(chars@.subrange(at as int, at + needle@.len())[k as int] != needle@[k as int]);
            return false;
        }
        k = k + 1;
    }
    assert(chars@.subrange(at as int, at + needle@.len()) =~= needle@);
    true
}

/// Whether `s` begins with `prefix`.
pub fn starts_with(s: &str, prefix: &str) -> (r: bool)
    ensures
        r == prefix@.is_prefix_of(s@),
{
    let chars: Vec<char> = chars_of(s);
    let needle: Vec<char> = chars_of(prefix);
    needle.len() <= chars.len() && matches_at(&chars, &needle, 0)
}

/// Whether `needle` occurs in `s`.
pub fn contains_text(s: &str, needle: &str) -> (r: bool)
    ensures
        r == occurs_in(needle@, s@),
{
    let chars: Vec<char> = chars_of(s);
    let wanted: Vec<char> = chars_of(needle);
    if wanted.len() == 0 {
        assert(s@.subrange(0, 0int + needle@.len()) =~= needle@);
        return true;
    }
    if wanted.len() > chars.len() {
        return false;
    }
    let last: usize = chars.len() - wanted.len();
    let mut at: usize = 0;
    while at <= last
        invariant
            chars@ == s@,
            wanted@ == needle@,
            last == chars@.len() - wanted@.len(),
            at <= last + 1,
            last < usize::MAX,
            forall|j: int| 0 <= j < at ==> #[trigger] s@.subrange(j, j + needle@.len()) != needle@,
        decreases last + 1 - at,
    {
        if matches_at(&chars, &wanted, at) {
            return true;
        }
        at = at + 1;
    }
    false
}

} // verus!
