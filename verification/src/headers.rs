use vstd::prelude::*;

use crate::error::Error;
use crate::outside::{char_from_u32, chars_of};

verus! {

// HTTP header names are matched without regard to ASCII case, as the
// transport's header tables do.
/// The given character with an ASCII capital folded to lower case.
pub open spec fn lower_char(c: char) -> char {
    if 0x41 <= c as int && c as int <= 0x5A {
        ((c as int + 32) as char)
    } else {
        c
    }
}

/// The text with every ASCII capital folded to lower case.
pub open spec fn fold_lower(s: Seq<char>) -> Seq<char> {
    s.map_values(|c: char| lower_char(c))
}

fn lower_char_exec(c: char) -> (r: char)
    ensures
        r == lower_char(c),
{
    if c >= 'A' && c <= 'Z' {
        let u = c as u32;
        let o = char_from_u32(u + 32);
        proof {
            assert(u as int == c as int);
            assert(o is Some);
            assert(o == Some((u + 32) as char));
            assert(((u + 32) as char) as int == c as int + 32);
        }
        o.unwrap()
    } else {
        c
    }
}

/// True when the two texts agree up to ASCII case.
pub fn str_eq_fold(a: &str, b: &str) -> (r: bool)
    ensures
        r == (fold_lower(a@) == fold_lower(b@)),
{
    let av = chars_of(a);
    let bv = chars_of(b);
    if av.len() != bv.len() {
        proof {
            assert(fold_lower(a@).len() != fold_lower(b@).len());
        }
        return false;
    }
    let n = av.len();
    let mut i: usize = 0;
    while i < n
        invariant
            av@ == a@,
            bv@ == b@,
            n == av@.len() == bv@.len(),
            0 <= i <= n,
            forall|j: int| 0 <= j < i ==> lower_char(a@[j]) == lower_char(b@[j]),
        decreases n - i,
    {
        let ca = lower_char_exec(av[i]);
        let cb = lower_char_exec(bv[i]);
        if ca as u32 != cb as u32 {
            proof {
                assert(fold_lower(a@)[i as int] == lower_char(a@[i as int]));
                assert(fold_lower(b@)[i as int] == lower_char(b@[i as int]));
            }
            return false;
        }
        i = i + 1;
    }
    proof {
        assert(fold_lower(a@) =~= fold_lower(b@));
    }
    true
}

/// A response or request header table: name/value pairs in order. Lookup by
/// name folds ASCII case, as HTTP requires.
#[derive(Debug)]
pub struct Headers {
    pub entries: Vec<(String, String)>,
}

impl View for Headers {
    type V = Seq<(Seq<char>, Seq<char>)>;

    open spec fn view(&self) -> Seq<(Seq<char>, Seq<char>)> {
        Seq::new(self.entries@.len(), |i: int| (self.entries@[i].0@, self.entries@[i].1@))
    }
}

/// The value of the first header whose name matches, folding ASCII case.
pub open spec fn spec_header_lookup(
    hs: Seq<(Seq<char>, Seq<char>)>,
    name: Seq<char>,
) -> Option<Seq<char>>
    decreases hs.len(),
{
    if hs.len() == 0 {
        None
    } else if fold_lower(hs[0].0) == fold_lower(name) {
        Some(hs[0].1)
    } else {
        spec_header_lookup(hs.drop_first(), name)
    }
}

proof fn lemma_header_lookup_step(hs: Seq<(Seq<char>, Seq<char>)>, name: Seq<char>, i: int)
    requires
        0 <= i <= hs.len(),
        forall|j: int| 0 <= j < i ==> fold_lower(#[trigger] hs[j].0) != fold_lower(name),
    ensures
        spec_header_lookup(hs, name) == spec_header_lookup(hs.skip(i), name),
    decreases i,
{
    if i > 0 {
        lemma_header_lookup_step(hs, name, i - 1);
        assert(fold_lower(hs[i - 1].0) != fold_lower(name));
        assert(hs.skip(i - 1).len() > 0);
        assert(hs.skip(i - 1)[0] == hs[i - 1]);
        assert(spec_header_lookup(hs.skip(i - 1), name) == spec_header_lookup(
            hs.skip(i - 1).drop_first(),
            name,
        ));
        assert(hs.skip(i - 1).drop_first() =~= hs.skip(i));
    } else {
        assert(hs.skip(0) =~= hs);
    }
}

impl Headers {
    /// A table with no entries.
    pub fn new() -> (r: Headers)
        ensures
            r@ =~= Seq::<(Seq<char>, Seq<char>)>::empty(),
    {
        Headers { entries: Vec::new() }
    }

    /// Appends one name/value pair.
    pub fn push(&mut self, name: String, value: String)
        ensures
            final(self)@ =~= old(self)@.push((name@, value@)),
    {
        self.entries.push((name, value));
    }

    /// The value of the first header named `name`, folding ASCII case.
    pub fn get<'a>(&'a self, name: &str) -> (r: Option<&'a String>)
        ensures
            match r {
                Some(v) => spec_header_lookup(self@, name@) == Some(v@),
                None => spec_header_lookup(self@, name@) is None,
            },
    {
        let ghost m = self@;
        let mut i: usize = 0;
        while i < self.entries.len()
            invariant
                m == self@,
                m.len() == self.entries@.len(),
                0 <= i <= self.entries@.len(),
                forall|j: int|
                    0 <= j < i ==> fold_lower(#[trigger] m[j].0) != fold_lower(name@),
            decreases self.entries@.len() - i,
        {
            proof {
                assert(m[i as int] == (self.entries@[i as int].0@, self.entries@[i as int].1@));
            }
            if str_eq_fold(self.entries[i].0.as_str(), name) {
                proof {
                    lemma_header_lookup_step(m, name@, i as int);
                    assert(m.skip(i as int).len() > 0);
                    assert(m.skip(i as int)[0] == m[i as int]);
                    assert(spec_header_lookup(m, name@) == Some(self.entries@[i as int].1@));
                }
                return Some(&self.entries[i].1);
            }
            i = i + 1;
        }
        proof {
            lemma_header_lookup_step(m, name@, m.len() as int);
            assert(m.skip(m.len() as int) =~= Seq::<(Seq<char>, Seq<char>)>::empty());
        }
        None
    }
}

// ---- decimal parsing ----

/// True when the character is a decimal digit.
pub open spec fn is_digit(c: char) -> bool {
    0x30 <= c as int && c as int <= 0x39
}

/// The digit's value.
pub open spec fn digit_val(c: char) -> int {
    c as int - 0x30
}

/// True when the text is one or more decimal digits.
pub open spec fn all_digits(s: Seq<char>) -> bool {
    forall|i: int| 0 <= i < s.len() ==> is_digit(#[trigger] s[i])
}

/// The value of a digit string read in base ten.
pub open spec fn dec_val(s: Seq<char>) -> int
    decreases s.len(),
{
    if s.len() == 0 {
        0
    } else {
        dec_val(s.drop_last()) * 10 + digit_val(s.last())
    }
}

proof fn lemma_dec_val_nonneg(s: Seq<char>)
    requires
        all_digits(s),
    ensures
        dec_val(s) >= 0,
    decreases s.len(),
{
    if s.len() > 0 {
        assert forall|i: int| 0 <= i < s.drop_last().len() implies is_digit(
            #[trigger] s.drop_last()[i],
        ) by {
            assert(s.drop_last()[i] == s[i]);
        }
        lemma_dec_val_nonneg(s.drop_last());
        assert(is_digit(s[s.len() - 1]));
        assert(s.last() == s[s.len() - 1]);
        assert(digit_val(s.last()) >= 0);
        assert(dec_val(s.drop_last()) * 10 >= 0);
        assert(dec_val(s) == dec_val(s.drop_last()) * 10 + digit_val(s.last()));
    }
}

proof fn lemma_dec_val_prefix(s: Seq<char>, i: int)
    requires
        all_digits(s),
        0 <= i <= s.len(),
    ensures
        dec_val(s.take(i)) <= dec_val(s),
    decreases s.len() - i,
{
    if i < s.len() {
        lemma_dec_val_prefix(s, i + 1);
        assert(s.take(i + 1).drop_last() =~= s.take(i));
        assert(s.take(i + 1).last() == s[i]);
        assert forall|j: int| 0 <= j < s.take(i).len() implies is_digit(
            #[trigger] s.take(i)[j],
        ) by {
            assert(s.take(i)[j] == s[j]);
        }
        lemma_dec_val_nonneg(s.take(i));
        assert(is_digit(s[i]));
        assert(dec_val(s.take(i + 1)) == dec_val(s.take(i)) * 10 + digit_val(s[i]));
        assert(dec_val(s.take(i)) <= dec_val(s.take(i)) * 10);
    } else {
        assert(s.take(i) =~= s);
    }
}

/// Reads an unsigned decimal: defined exactly on non-empty all-digit texts
/// whose value fits in a `u64`.
pub fn parse_u64(s: &str) -> (r: Option<u64>)
    ensures
        r is Some <==> (s@.len() > 0 && all_digits(s@) && dec_val(s@) <= u64::MAX),
        r matches Some(v) ==> v == dec_val(s@),
{
    let cs = chars_of(s);
    if cs.len() == 0 {
        return None;
    }
    let n = cs.len();
    let mut acc: u64 = 0;
    let mut i: usize = 0;
    while i < n
        invariant
            cs@ == s@,
            n == s@.len(),
            0 <= i <= n,
            all_digits(s@.take(i as int)),
            acc == dec_val(s@.take(i as int)),
        decreases n - i,
    {
        let c = cs[i];
        if !(c >= '0' && c <= '9') {
            proof {
                assert(!is_digit(s@[i as int]));
            }
            return None;
        }
        let d: u64 = (c as u32 - 0x30) as u64;
        proof {
            assert(d == digit_val(s@[i as int]));
        }
        proof {
            assert(all_digits(s@.take(i as int + 1))) by {
                assert(forall|j: int|
                    0 <= j < i + 1 ==> #[trigger] s@.take(i as int + 1)[j] == s@.take(
                        i as int + 1,
                    )[j] && s@.take(i as int + 1)[j] == s@[j]);
            }
            assert(s@.take(i as int + 1).drop_last() =~= s@.take(i as int));
            assert(s@.take(i as int + 1).last() == s@[i as int]);
        }
        if acc > (u64::MAX - d) / 10 {
            proof {
                assert(acc * 10 + d > u64::MAX) by (nonlinear_arith)
                    requires
                        acc > (u64::MAX - d) / 10,
                        d <= 9,
                ;
                assert(dec_val(s@.take(i as int + 1)) == acc * 10 + d);
                if all_digits(s@) {
                    lemma_dec_val_prefix(s@, i as int + 1);
                    assert(dec_val(s@) > u64::MAX);
                }
            }
            return None;
        }
        proof {
            assert(acc * 10 + d <= u64::MAX) by (nonlinear_arith)
                requires
                    acc <= (u64::MAX - d) / 10,
                    d <= 9,
            ;
        }
        acc = acc * 10 + d;
        i = i + 1;
    }
    proof {
        assert(s@.take(n as int) =~= s@);
    }
    Some(acc)
}

// ---- the headers this core consumes ----

/// The continuation-token header of the document store.
pub fn header_continuation() -> (r: String)
    ensures
        r@ == "x-ms-continuation"@,
{
    "x-ms-continuation".to_owned()
}

/// The request-charge header.
pub fn header_request_charge() -> (r: String)
    ensures
        r@ == "x-ms-request-charge"@,
{
    "x-ms-request-charge".to_owned()
}

/// The item-count header of list responses.
pub fn header_item_count() -> (r: String)
    ensures
        r@ == "x-ms-item-count"@,
{
    "x-ms-item-count".to_owned()
}

/// The entity-tag header.
pub fn header_etag() -> (r: String)
    ensures
        r@ == "etag"@,
{
    "etag".to_owned()
}

/// The item count a list response carries, from its headers: the header is
/// required, and must read as a decimal `u64`.
pub fn request_item_count_from_headers(headers: &Headers) -> (r: Result<u64, Error>)
    ensures
        match r {
            Ok(v) => spec_header_lookup(headers@, "x-ms-item-count"@) matches Some(t)
                && t.len() > 0 && all_digits(t) && dec_val(t) <= u64::MAX && v == dec_val(t),
            Err(e) => match e {
                Error::MissingHeader(h) => h@ == "x-ms-item-count"@ && spec_header_lookup(
                    headers@,
                    "x-ms-item-count"@,
                ) is None,
                Error::MalformedResponse => spec_header_lookup(headers@, "x-ms-item-count"@)
                    matches Some(t) && !(t.len() > 0 && all_digits(t) && dec_val(t)
                    <= u64::MAX),
                _ => false,
            },
        },
{
    let name = header_item_count();
    match headers.get(name.as_str()) {
        None => Err(Error::MissingHeader(name)),
        Some(v) => match parse_u64(v.as_str()) {
            Some(n) => Ok(n),
            None => Err(Error::MalformedResponse),
        },
    }
}

/// The request charge a response carries, from its headers: the raw decimal
/// text of the required charge header.
pub fn request_charge_from_headers(headers: &Headers) -> (r: Result<String, Error>)
    ensures
        match r {
            Ok(v) => spec_header_lookup(headers@, "x-ms-request-charge"@) == Some(v@),
            Err(e) => e matches Error::MissingHeader(h) && h@ == "x-ms-request-charge"@
                && spec_header_lookup(headers@, "x-ms-request-charge"@) is None,
        },
{
    let name = header_request_charge();
    match headers.get(name.as_str()) {
        None => Err(Error::MissingHeader(name)),
        Some(v) => Ok(v.clone()),
    }
}

/// The continuation token a response carries, if any.
pub fn derive_continuation_token(headers: &Headers) -> (r: Option<String>)
    ensures
        match r {
            Some(v) => spec_header_lookup(headers@, "x-ms-continuation"@) == Some(v@),
            None => spec_header_lookup(headers@, "x-ms-continuation"@) is None,
        },
{
    let name = header_continuation();
    match headers.get(name.as_str()) {
        None => None,
        Some(v) => Some(v.clone()),
    }
}

/// The request charge a response carries, if any, as its raw decimal text.
pub fn derive_request_charge(headers: &Headers) -> (r: Option<String>)
    ensures
        match r {
            Some(v) => spec_header_lookup(headers@, "x-ms-request-charge"@) == Some(v@),
            None => spec_header_lookup(headers@, "x-ms-request-charge"@) is None,
        },
{
    let name = header_request_charge();
    match headers.get(name.as_str()) {
        None => None,
        Some(v) => Some(v.clone()),
    }
}

/// The entity tag a response carries, if any.
pub fn derive_etag(headers: &Headers) -> (r: Option<String>)
    ensures
        match r {
            Some(v) => spec_header_lookup(headers@, "etag"@) == Some(v@),
            None => spec_header_lookup(headers@, "etag"@) is None,
        },
{
    let name = header_etag();
    match headers.get(name.as_str()) {
        None => None,
        Some(v) => Some(v.clone()),
    }
}


/// The value of a digit string read least-significant first.
pub open spec fn dec_val_lsb(s: Seq<char>) -> int
    decreases s.len(),
{
    if s.len() == 0 {
        0
    } else {
        digit_val(s.first()) + 10 * dec_val_lsb(s.drop_first())
    }
}

/// Ten to the given power.
pub open spec fn pow10(k: nat) -> int
    decreases k,
{
    if k == 0 {
        1
    } else {
        10 * pow10((k - 1) as nat)
    }
}

proof fn lemma_pow10_pos(k: nat)
    ensures
        pow10(k) >= 1,
    decreases k,
{
    if k > 0 {
        lemma_pow10_pos((k - 1) as nat);
    }
}

proof fn lemma_dec_val_lsb_push(s: Seq<char>, c: char)
    ensures
        dec_val_lsb(s.push(c)) == dec_val_lsb(s) + digit_val(c) * pow10(s.len()),
    decreases s.len(),
{
    if s.len() == 0 {
        assert(s.push(c) =~= seq![c]);
        assert(s.push(c).drop_first() =~= Seq::<char>::empty());
        assert(s.push(c)[0] == c);
        assert(dec_val_lsb(Seq::<char>::empty()) == 0);
        assert(dec_val_lsb(s.push(c)) == digit_val(c) + 10 * 0);
    } else {
        lemma_dec_val_lsb_push(s.drop_first(), c);
        assert(s.push(c).drop_first() =~= s.drop_first().push(c));
        assert(s.push(c).first() == s.first());
        assert(dec_val_lsb(s.push(c)) == digit_val(s.first()) + 10 * dec_val_lsb(
            s.drop_first().push(c),
        ));
        assert(10 * (dec_val_lsb(s.drop_first()) + digit_val(c) * pow10(s.drop_first().len()))
            == 10 * dec_val_lsb(s.drop_first()) + digit_val(c) * (10 * pow10(
            s.drop_first().len(),
        ))) by (nonlinear_arith);
        assert(10 * pow10(s.drop_first().len()) == pow10(s.len()));
    }
}

proof fn lemma_dec_val_reverse(s: Seq<char>)
    ensures
        dec_val(s.reverse()) == dec_val_lsb(s),
    decreases s.len(),
{
    if s.len() > 0 {
        lemma_dec_val_reverse(s.drop_first());
        assert(s.reverse().len() == s.len());
        assert(s.reverse().drop_last() =~= s.drop_first().reverse());
        assert(s.reverse().last() == s[0]);
        assert(dec_val(s.reverse()) == dec_val(s.reverse().drop_last()) * 10 + digit_val(
            s[0],
        ));
        assert(dec_val_lsb(s) == digit_val(s[0]) + 10 * dec_val_lsb(s.drop_first()));
    }
}

/// Writes an unsigned number in decimal.
pub fn u64_to_dec(n: u64) -> (r: String)
    ensures
        r@.len() > 0,
        all_digits(r@),
        dec_val(r@) == n,
{
    let mut digits: Vec<char> = Vec::new();
    let mut x = n;
    let ghost mut mult: int = 1;
    while x > 0
        invariant
            n as int == dec_val_lsb(digits@) + (x as int) * mult,
            mult == pow10(digits@.len() as nat),
            all_digits(digits@),
        decreases x,
    {
        let d: u32 = (x % 10) as u32;
        let o = crate::outside::char_from_u32(0x30 + d);
        proof {
            assert(o is Some);
        }
        let c = o.unwrap();
        proof {
            assert(is_digit(c));
            assert(digit_val(c) == d);
        }
        let ghost old_digits = digits@;
        let ghost x0 = x as int;
        digits.push(c);
        x = x / 10;
        proof {
            lemma_dec_val_lsb_push(old_digits, c);
            assert(digits@ =~= old_digits.push(c));
            assert(x0 == 10 * (x as int) + d);
            assert(x0 * mult == (d as int) * mult + (x as int) * (10 * mult))
                by (nonlinear_arith)
                requires
                    x0 == 10 * (x as int) + d,
            ;
            assert(all_digits(digits@)) by {
                assert(forall|j: int|
                    0 <= j < old_digits.len() ==> #[trigger] digits@[j] == old_digits[j]);
                assert(digits@[digits@.len() - 1] == c);
            }
            mult = mult * 10;
            assert(mult == pow10(digits@.len() as nat));
        }
    }
    if digits.len() == 0 {
        let mut one: Vec<char> = Vec::new();
        one.push('0');
        let r = crate::outside::string_from_chars(&one);
        proof {
            lemma_pow10_pos(digits@.len() as nat);
            assert(n == 0);
            assert(r@ =~= seq!['0']);
            assert(r@.drop_last() =~= Seq::<char>::empty());
            assert(r@.last() == '0');
            assert(is_digit('0'));
            assert(dec_val(Seq::<char>::empty()) == 0);
            assert(dec_val(r@) == 0);
        }
        return r;
    }
    let mut rev: Vec<char> = Vec::new();
    let mut i = digits.len();
    proof {
        assert(digits@.skip(digits@.len() as int).reverse() =~= Seq::<char>::empty());
    }
    while i > 0
        invariant
            i <= digits@.len(),
            rev@ =~= digits@.skip(i as int).reverse(),
        decreases i,
    {
        i = i - 1;
        rev.push(digits[i]);
        proof {
            assert(rev@ =~= digits@.skip(i as int).reverse());
        }
    }
    proof {
        assert(digits@.skip(0) =~= digits@);
        lemma_dec_val_reverse(digits@);
        lemma_pow10_pos(0);
    }
    let r = crate::outside::string_from_chars(&rev);
    proof {
        assert(r@ == digits@.reverse());
        assert(all_digits(r@)) by {
            assert(forall|j: int|
                0 <= j < r@.len() ==> #[trigger] r@[j] == digits@[r@.len() - 1 - j]);
        }
    }
    r
}

} // verus!
