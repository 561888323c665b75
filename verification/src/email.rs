//! Validated email addresses.
//!
//! An address is accepted when it has the shape `local-part@domain`, where
//! the local part is one or more characters from `[A-Za-z0-9_.+-]` and the
//! domain is one or more labels of `[A-Za-z0-9-]+` separated by single dots,
//! with at least one dot after the `@`.

use vstd::prelude::*;

verus! {

/// Error for a string that does not have the shape of an email address;
/// carries the rejected string.
#[derive(Debug)]
pub enum EmailAddressError {
    Invalid(String),
}

/// An email address; constructed through `parse`, which admits exactly the
/// strings satisfying `is_valid_email`.
#[derive(Clone, Debug)]
pub struct EmailAddress(pub String);

impl View for EmailAddress {
    type V = Seq<char>;

    open spec fn view(&self) -> Seq<char> {
        self.0@
    }
}

pub open spec fn is_alnum_char(c: char) -> bool {
    ||| 'a' as u32 <= c as u32 && c as u32 <= 'z' as u32
    ||| 'A' as u32 <= c as u32 && c as u32 <= 'Z' as u32
    ||| '0' as u32 <= c as u32 && c as u32 <= '9' as u32
}

/// Characters allowed in the local part, before the `@`.
pub open spec fn is_local_char(c: char) -> bool {
    is_alnum_char(c) || c == '_' || c == '.' || c == '+' || c == '-'
}

/// Characters allowed inside a domain label.
pub open spec fn is_label_char(c: char) -> bool {
    is_alnum_char(c) || c == '-'
}

/// The domain part: non-empty labels of label characters separated by single
/// dots, with at least one dot.
pub open spec fn is_valid_domain(d: Seq<char>) -> bool {
    &&& d.len() > 0
    &&& d[0] != '.'
    &&& forall|i: int| 0 <= i < d.len() ==> is_label_char(#[trigger] d[i]) || d[i] == '.'
    &&& forall|i: int|
        0 <= i < d.len() ==> (#[trigger] d[i] == '.' ==> i + 1 < d.len() && d[i + 1] != '.')
    &&& exists|i: int| 0 <= i < d.len() && #[trigger] d[i] == '.'
}

/// The string splits at position `a` into a non-empty local part, an `@`,
/// and a valid domain.
pub open spec fn is_email_split_at(s: Seq<char>, a: int) -> bool {
    &&& 1 <= a < s.len()
    &&& s[a] == '@'
    &&& forall|j: int| 0 <= j < a ==> is_local_char(#[trigger] s[j])
    &&& is_valid_domain(s.subrange(a + 1, s.len() as int))
}

/// What `EmailAddress::parse` accepts.
pub open spec fn is_valid_email(s: Seq<char>) -> bool {
    exists|a: int| is_email_split_at(s, a)
}

fn is_alnum(c: char) -> (r: bool)
    ensures
        r == is_alnum_char(c),
{
    let u = c as u32;
    ('a' as u32 <= u && u <= 'z' as u32) || ('A' as u32 <= u && u <= 'Z' as u32) || ('0' as u32
        <= u && u <= '9' as u32)
}

fn is_local(c: char) -> (r: bool)
    ensures
        r == is_local_char(c),
{
    is_alnum(c) || c == '_' || c == '.' || c == '+' || c == '-'
}

fn is_label(c: char) -> (r: bool)
    ensures
        r == is_label_char(c),
{
    is_alnum(c) || c == '-'
}

/// Checks the suffix of `text` starting at `start` against `is_valid_domain`.
fn check_domain(text: &str, start: usize) -> (b: bool)
    requires
        start as int <= text@.len(),
    ensures
        b == is_valid_domain(text@.subrange(start as int, text@.len() as int)),
{
    let ghost d = text@.subrange(start as int, text@.len() as int);
    let n = text.unicode_len();
    if start == n {
        return false;
    }
    if text.get_char(start) == '.' {
        return false;
    }
    let mut seen_dot = false;
    let mut i: usize = start;
    while i < n
        invariant
            start <= i <= n,
            n == text@.len(),
            start < n,
            text@[start as int] != '.',
            d == text@.subrange(start as int, text@.len() as int),
            forall|k: int| start <= k < i ==> is_label_char(#[trigger] text@[k]) || text@[k] == '.',
            forall|k: int|
                start <= k < i ==> (#[trigger] text@[k] == '.' ==> k + 1 < n && text@[k + 1]
                    != '.'),
            seen_dot <==> exists|k: int| start <= k < i && #[trigger] text@[k] == '.',
        decreases n - i,
    {
        let c = text.get_char(i);
        if !(is_label(c) || c == '.') {
            assert(d[i - start] == text@[i as int]);
            return false;
        }
        if c == '.' {
            if i + 1 == n {
                assert(d[i - start] == '.' && i - start + 1 == d.len());
                return false;
            }
            if text.get_char(i + 1) == '.' {
                assert(d[i - start] == '.' && d[i - start + 1] == '.');
                return false;
            }
            seen_dot = true;
        }
        i = i + 1;
    }
    proof {
        assert forall|k: int| 0 <= k < d.len() implies (is_label_char(#[trigger] d[k]) || d[k]
            == '.') && (d[k] == '.' ==> k + 1 < d.len() && d[k + 1] != '.') by {
            assert(d[k] == text@[start + k]);
            if d[k] == '.' {
                assert(text@[start + k + 1] == d[k + 1]);
            }
        }
        if seen_dot {
            let k = choose|k: int| start <= k < n && #[trigger] text@[k] == '.';
            assert(d[k - start] == '.');
            assert(is_valid_domain(d));
        } else {
            assert forall|k: int| 0 <= k < d.len() implies #[trigger] d[k] != '.' by {
                assert(d[k] == text@[start + k]);
            }
        }
    }
    seen_dot
}

impl EmailAddress {
    /// Validates `text`; returns the address exactly when `text` is a valid
    /// email, and an `Invalid` error carrying `text` otherwise.
    pub fn parse(text: &str) -> (r: Result<EmailAddress, EmailAddressError>)
        ensures
            r is Ok <==> is_valid_email(text@),
            r matches Ok(addr) ==> addr.0@ == text@,
            r matches Err(e) ==> (e matches EmailAddressError::Invalid(t) && t@ == text@),
    {
        let n = text.unicode_len();
        // Find the first '@'.
        let mut at: usize = 0;
        let mut at_found = false;
        let mut i: usize = 0;
        while i < n
            invariant
                i <= n,
                n == text@.len(),
                at_found ==> at < i && text@[at as int] == '@' && forall|j: int|
                    0 <= j < at ==> text@[j] != '@',
                !at_found ==> forall|j: int| 0 <= j < i ==> text@[j] != '@',
            decreases n - i,
        {
            if !at_found && text.get_char(i) == '@' {
                at = i;
                at_found = true;
            }
            i = i + 1;
        }
        if !at_found {
            proof {
                assert forall|a: int| !is_email_split_at(text@, a) by {
                    if 0 <= a < text@.len() {
                        assert(text@[a] != '@');
                    }
                }
            }
            return Err(EmailAddressError::Invalid(text.to_owned()));
        }
        // The first '@' is the only possible split point: the local part may
        // not contain '@', so a split further right is ruled out too.
        proof {
            assert forall|a: int| a != at implies !is_email_split_at(text@, a) by {
                if is_email_split_at(text@, a) && a > at {
                    assert(is_local_char(text@[at as int]));
                    assert(false);
                }
            }
        }
        if at == 0 {
            return Err(EmailAddressError::Invalid(text.to_owned()));
        }
        let mut j: usize = 0;
        while j < at
            invariant
                j <= at,
                at < n,
                n == text@.len(),
                text@[at as int] == '@',
                forall|a: int| a != at ==> !is_email_split_at(text@, a),
                forall|k: int| 0 <= k < j ==> is_local_char(#[trigger] text@[k]),
            decreases at - j,
        {
            if !is_local(text.get_char(j)) {
                proof {
                    assert(!is_email_split_at(text@, at as int));
                }
                return Err(EmailAddressError::Invalid(text.to_owned()));
            }
            j = j + 1;
        }
        if !check_domain(text, at + 1) {
            return Err(EmailAddressError::Invalid(text.to_owned()));
        }
        assert(is_email_split_at(text@, at as int));
        Ok(EmailAddress(text.to_owned()))
    }
}

} // verus!
