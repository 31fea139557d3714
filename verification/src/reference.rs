//! The identity that a handle carries: which client it was made for.

use vstd::prelude::*;
use vstd::string::*;

verus! {

/// `String::push`: appends one character.
pub assume_specification[ String::push ](string: &mut String, ch: char)
    ensures
        final(string)@ == old(string)@.push(ch),
;

/// The character of a decimal digit.
pub open spec fn digit(value: nat) -> char {
    (value + 48) as char
}

/// A number in decimal, without leading zeros.
pub open spec fn decimal(value: nat) -> Seq<char>
    decreases value,
{
    if value < 10 {
        seq![digit(value)]
    } else {
        decimal(value / 10).push(digit(value % 10))
    }
}

/// The reference to a client: its generation, its owner and its URL.
pub open spec fn reference_text(generation: u64, scope_id: u64, url: Seq<char>) -> Seq<char> {
    decimal(generation as nat) + seq![':'] + (decimal(scope_id as nat) + seq![':'] + url)
}

/// Writes a number in decimal.
pub fn decimal_text(value: u64) -> (text: String)
    ensures
        text@ == decimal(value as nat),
    decreases value,
{
    let mut text = if value < 10 {
        String::new()
    } else {
        decimal_text(value / 10)
    };
    let last = (value % 10) as u8;
    text.push((last + 48) as char);
    assert(text@ =~= decimal(value as nat));
    text
}

/// Writes the reference to a client.
pub fn reference_to(generation: u64, scope_id: u64, url: &str) -> (text: String)
    ensures
        text@ == reference_text(generation, scope_id, url@),
{
    let mut text = decimal_text(generation);
    text.push(':');
    let owner = decimal_text(scope_id);
    text.append(owner.as_str());
    text.push(':');
    text.append(url);
    assert(text@ =~= reference_text(generation, scope_id, url@));
    text
}

proof fn lemma_decimal_digits(value: nat)
    ensures
        decimal(value).len() > 0,
        forall|i: int| 0 <= i < decimal(value).len() ==> #[trigger] decimal(value)[i] != ':',
    decreases value,
{
    if value >= 10 {
        lemma_decimal_digits(value / 10);
    }
}

/// Two numbers with the same decimal text are equal.
pub proof fn lemma_decimal_injective(a: nat, b: nat)
    requires
        decimal(a) == decimal(b),
    ensures
        a == b,
    decreases a,
{
    lemma_decimal_digits(a / 10);
    lemma_decimal_digits(b / 10);
    assert(decimal(a).last() == digit(a % 10));
    assert(decimal(b).last() == digit(b % 10));
    assert(a % 10 == b % 10);
    if a >= 10 {
        assert(decimal(a).len() >= 2);
        assert(b >= 10);
        assert(decimal(a).drop_last() =~= decimal(a / 10));
        assert(decimal(b).drop_last() =~= decimal(b / 10));
        lemma_decimal_injective(a / 10, b / 10);
    }
}

/// Texts that are split at the first occurrence of a character have equal parts.
proof fn lemma_split(a: Seq<char>, x: Seq<char>, b: Seq<char>, y: Seq<char>, mark: char)
    requires
        a + seq![mark] + x == b + seq![mark] + y,
        forall|i: int| 0 <= i < a.len() ==> #[trigger] a[i] != mark,
        forall|i: int| 0 <= i < b.len() ==> #[trigger] b[i] != mark,
    ensures
        a == b,
        x == y,
{
    let left = a + seq![mark] + x;
    let right = b + seq![mark] + y;
    assert(left[a.len() as int] == mark);
    assert(right[b.len() as int] == mark);
    if a.len() < b.len() {
        assert(right[a.len() as int] == b[a.len() as int]);
    }
    if b.len() < a.len() {
        assert(left[b.len() as int] == a[b.len() as int]);
    }
    assert(a =~= left.take(a.len() as int));
    assert(b =~= right.take(b.len() as int));
    assert(x =~= left.skip(a.len() as int + 1));
    assert(y =~= right.skip(b.len() as int + 1));
}

/// A reference names one client: from its text follow the generation, the owner and the URL.
pub proof fn law_reference_is_identity(
    generation: u64,
    scope_id: u64,
    url: Seq<char>,
    other_generation: u64,
    other_scope_id: u64,
    other_url: Seq<char>,
)
    requires
        reference_text(generation, scope_id, url) == reference_text(
            other_generation,
            other_scope_id,
            other_url,
        ),
    ensures
        generation == other_generation,
        scope_id == other_scope_id,
        url == other_url,
{
    lemma_decimal_digits(generation as nat);
    lemma_decimal_digits(scope_id as nat);
    lemma_decimal_digits(other_generation as nat);
    lemma_decimal_digits(other_scope_id as nat);
    let rest = decimal(scope_id as nat) + seq![':'] + url;
    let other_rest = decimal(other_scope_id as nat) + seq![':'] + other_url;
    lemma_split(
        decimal(generation as nat),
        rest,
        decimal(other_generation as nat),
        other_rest,
        ':',
    );
    lemma_split(decimal(scope_id as nat), url, decimal(other_scope_id as nat), other_url, ':');
    lemma_decimal_injective(generation as nat, other_generation as nat);
    lemma_decimal_injective(scope_id as nat, other_scope_id as nat);
}

/// What comes after the first colon of a text.
pub open spec fn after_colon(text: Seq<char>) -> Option<Seq<char>>
    decreases text.len(),
{
    if text.len() == 0 {
        None
    } else if text[0] == ':' {
        Some(text.drop_first())
    } else {
        after_colon(text.drop_first())
    }
}

/// The URL of a reference: what comes after its second colon.
pub open spec fn url_of_reference(reference: Seq<char>) -> Option<Seq<char>> {
    match after_colon(reference) {
        Some(rest) => after_colon(rest),
        None => None,
    }
}

proof fn lemma_after_colon(before: Seq<char>, rest: Seq<char>)
    requires
        forall|i: int| 0 <= i < before.len() ==> #[trigger] before[i] != ':',
    ensures
        after_colon(before + seq![':'] + rest) == Some(rest),
    decreases before.len(),
{
    let text = before + seq![':'] + rest;
    if before.len() == 0 {
        assert(text.drop_first() =~= rest);
    } else {
        assert(text[0] == before[0]);
        assert(text.drop_first() =~= before.drop_first() + seq![':'] + rest);
        lemma_after_colon(before.drop_first(), rest);
    }
}

/// A reference gives its URL back, whatever the URL holds.
pub proof fn law_reference_holds_its_url(generation: u64, scope_id: u64, url: Seq<char>)
    ensures
        url_of_reference(reference_text(generation, scope_id, url)) == Some(url),
{
    lemma_decimal_digits(generation as nat);
    lemma_decimal_digits(scope_id as nat);
    lemma_after_colon(
        decimal(generation as nat),
        decimal(scope_id as nat) + seq![':'] + url,
    );
    lemma_after_colon(decimal(scope_id as nat), url);
}

fn rest_after_colon(text: &str) -> (rest: Option<String>)
    ensures
        match rest {
            Some(rest) => after_colon(text@) == Some(rest@),
            None => after_colon(text@) is None,
        },
{
    let len = text.unicode_len();
    let mut i: usize = 0;
    assert(text@.skip(0) =~= text@);
    while i < len
        invariant
            i <= len,
            len == text@.len(),
            after_colon(text@) == after_colon(text@.skip(i as int)),
        decreases len - i,
    {
        assert(text@.skip(i as int).drop_first() =~= text@.skip(i + 1));
        if text.get_char(i) == ':' {
            let rest = text.substring_char(i + 1, len);
            assert(rest@ =~= text@.skip(i + 1));
            return Some(rest.to_owned());
        }
        i = i + 1;
    }
    None
}

/// The URL that a reference holds, if it is one.
pub fn reference_url(reference: &str) -> (url: Option<String>)
    ensures
        match url {
            Some(url) => url_of_reference(reference@) == Some(url@),
            None => url_of_reference(reference@) is None,
        },
{
    match rest_after_colon(reference) {
        Some(rest) => rest_after_colon(rest.as_str()),
        None => None,
    }
}

} // verus!
