//! Decoding of a URL-encoded form body into the two required fields.
//!
//! A body is a sequence of `&`-separated segments; each segment is split at
//! its first `=` into a key and a value (a segment without `=` carries an
//! empty value), and both halves are decoded strictly: `+` stands for a
//! space, `%XX` for the byte its two hex digits spell, and a `%` not
//! followed by two hex digits makes the whole submission undecodable.
//! Unknown keys are ignored; a key given twice is rejected; the submission
//! is well formed exactly when both `name` and `email` come out non-empty.

use vstd::prelude::*;

verus! {

/// `%`, the escape byte.
pub const PERCENT: u8 = 37;

/// `+`, which decodes to a space.
pub const PLUS: u8 = 43;

/// The space byte.
pub const SPACE: u8 = 32;

/// `&`, the segment separator.
pub const AMP: u8 = 38;

/// `=`, the key/value separator.
pub const EQUALS: u8 = 61;

/// `;`, which begins the parameter list of a media type.
pub const SEMICOLON: u8 = 59;

/// Why a submission was rejected before any persistence was attempted.
#[derive(Clone, Copy, Debug, PartialEq, Eq, Structural)]
pub enum DecodeError {
    /// The declared content type is not the form media type.
    WrongContentType,
    /// Some segment is not valid URL-encoded syntax.
    InvalidEncoding,
    /// A required field was given more than once.
    DuplicateField,
    /// `name` is absent or empty.
    MissingName,
    /// `email` is absent or empty.
    MissingEmail,
    /// Both fields are absent or empty.
    MissingBoth,
}

/// The two decoded fields of a well-formed submission.
#[derive(Debug)]
pub struct FormData {
    pub name: Vec<u8>,
    pub email: Vec<u8>,
}

/// Mathematical view of a decoded submission.
pub ghost struct FormModel {
    pub name: Seq<u8>,
    pub email: Seq<u8>,
}

/// The digits, `A` to `F` and `a` to `f`.
pub open spec fn is_hex_digit(b: u8) -> bool {
    (48 <= b && b <= 57) || (65 <= b && b <= 70) || (97 <= b && b <= 102)
}

/// The number a hex digit stands for.
pub open spec fn hex_value(b: u8) -> u8 {
    if 48 <= b && b <= 57 {
        (b - 48) as u8
    } else if 65 <= b && b <= 70 {
        (b - 55) as u8
    } else {
        (b - 87) as u8
    }
}

/// Strict decoding of one percent-plus-encoded component; `None` when some
/// `%` is not followed by two hex digits.
pub open spec fn decoded(s: Seq<u8>) -> Option<Seq<u8>>
    decreases s.len(),
{
    if s.len() == 0 {
        Some(Seq::empty())
    } else if s[0] == PERCENT {
        if s.len() >= 3 && is_hex_digit(s[1]) && is_hex_digit(s[2]) {
            match decoded(s.skip(3)) {
                Some(rest) => Some(seq![(hex_value(s[1]) * 16 + hex_value(s[2])) as u8] + rest),
                None => None,
            }
        } else {
            None
        }
    } else {
        let b = if s[0] == PLUS {
            SPACE
        } else {
            s[0]
        };
        match decoded(s.skip(1)) {
            Some(rest) => Some(seq![b] + rest),
            None => None,
        }
    }
}

/// Index of the first occurrence of `sep` in `s`, or `s.len()` when `sep`
/// does not occur.
pub open spec fn first_index_of(s: Seq<u8>, sep: u8) -> nat
    decreases s.len(),
{
    if s.len() == 0 {
        0
    } else if s[0] == sep {
        0
    } else {
        1 + first_index_of(s.skip(1), sep)
    }
}

/// Whatever position carries `sep` with none before it is the first one.
pub proof fn lemma_first_index_of_unique(s: Seq<u8>, sep: u8, j: int)
    requires
        0 <= j <= s.len(),
        j < s.len() ==> s[j] == sep,
        forall|k: int| 0 <= k < j ==> s[k] != sep,
    ensures
        j == first_index_of(s, sep),
    decreases s.len(),
{
    if s.len() == 0 {
    } else if s[0] == sep {
        assert(j == 0);
    } else {
        assert(j >= 1);
        assert forall|k: int| 0 <= k < j - 1 implies s.skip(1)[k] != sep by {
            assert(s.skip(1)[k] == s[k + 1]);
        }
        if j - 1 < s.skip(1).len() {
            assert(s.skip(1)[j - 1] == s[j]);
        }
        lemma_first_index_of_unique(s.skip(1), sep, j - 1);
    }
}

fn is_hex_digit_byte(b: u8) -> (r: bool)
    ensures
        r == is_hex_digit(b),
{
    (48 <= b && b <= 57) || (65 <= b && b <= 70) || (97 <= b && b <= 102)
}

fn hex_digit_value(b: u8) -> (r: u8)
    requires
        is_hex_digit(b),
    ensures
        r == hex_value(b),
        r <= 15,
{
    if b <= 57 {
        b - 48
    } else if b <= 70 {
        b - 55
    } else {
        b - 87
    }
}

/// Strictly decode one percent-plus-encoded component.
fn decode_component(s: &Vec<u8>) -> (r: Option<Vec<u8>>)
    ensures
        match r {
            Some(v) => decoded(s@) == Some(v@),
            None => decoded(s@) is None,
        },
{
    let mut out: Vec<u8> = Vec::new();
    let mut i: usize = 0;
    proof {
        assert(s@.skip(0) =~= s@);
        assert forall|rest: Seq<u8>| decoded(s@) == Some(rest) implies Seq::<u8>::empty() + rest
            =~= rest by {}
    }
    while i < s.len()
        invariant
            i <= s@.len(),
            decoded(s@) == match decoded(s@.skip(i as int)) {
                Some(rest) => Some(out@ + rest),
                None => None::<Seq<u8>>,
            },
        decreases s@.len() - i,
    {
        let ghost suf = s@.skip(i as int);
        proof {
            assert(suf[0] == s@[i as int]);
        }
        let b = s[i];
        if b == PERCENT {
            if s.len() - i >= 3 && is_hex_digit_byte(s[i + 1]) && is_hex_digit_byte(s[i + 2]) {
                proof {
                    assert(suf.len() >= 3);
                    assert(suf[1] == s@[i + 1]);
                    assert(suf[2] == s@[i + 2]);
                    assert(suf.skip(3) =~= s@.skip(i + 3));
                }
                let hi = hex_digit_value(s[i + 1]);
                let lo = hex_digit_value(s[i + 2]);
                let ghost out_before = out@;
                out.push(hi * 16 + lo);
                proof {
                    assert forall|rest: Seq<u8>|
                        decoded(s@.skip(i + 3)) == Some(rest) implies out@ + rest =~= out_before
                        + (seq![(hex_value(suf[1]) * 16 + hex_value(suf[2])) as u8] + rest) by {}
                }
                i = i + 3;
            } else {
                proof {
                    assert(decoded(suf) is None);
                }
                return None;
            }
        } else {
            let ghost out_before = out@;
            let ghost d = if b == PLUS {
                SPACE
            } else {
                b
            };
            if b == PLUS {
                out.push(SPACE);
            } else {
                out.push(b);
            }
            proof {
                assert(suf.skip(1) =~= s@.skip(i + 1));
                assert forall|rest: Seq<u8>|
                    decoded(s@.skip(i + 1)) == Some(rest) implies out@ + rest =~= out_before + (
                seq![d] + rest) by {}
            }
            i = i + 1;
        }
    }
    proof {
        assert(s@.skip(i as int) =~= Seq::<u8>::empty());
        assert(out@ + Seq::<u8>::empty() =~= out@);
    }
    Some(out)
}

/// The key of the `name` field.
pub open spec fn name_key() -> Seq<u8> {
    seq![110u8, 97, 109, 101]
}

/// The key of the `email` field.
pub open spec fn email_key() -> Seq<u8> {
    seq![101u8, 109, 97, 105, 108]
}

/// One `key=value` segment, split at its first `=` (a segment without `=`
/// carries an empty value), both halves strictly decoded.
pub open spec fn parsed_segment(seg: Seq<u8>) -> Option<(Seq<u8>, Seq<u8>)> {
    let i = first_index_of(seg, EQUALS) as int;
    let raw_key = seg.take(i);
    let raw_value = if i == seg.len() {
        Seq::<u8>::empty()
    } else {
        seg.skip(i + 1)
    };
    match (decoded(raw_key), decoded(raw_value)) {
        (Some(k), Some(v)) => Some((k, v)),
        _ => None,
    }
}

/// Walk the `&`-separated segments of the remaining body, carrying the
/// fields seen so far; unknown keys are ignored, a repeated field is
/// rejected, an undecodable segment rejects the whole body.
pub open spec fn scan_fields(s: Seq<u8>, name: Option<Seq<u8>>, email: Option<Seq<u8>>) -> Result<
    (Option<Seq<u8>>, Option<Seq<u8>>),
    DecodeError,
>
    decreases s.len(),
{
    let i = first_index_of(s, AMP) as int;
    match parsed_segment(s.take(i)) {
        None => Err(DecodeError::InvalidEncoding),
        Some((k, v)) => {
            if (k == name_key() && name is Some) || (k == email_key() && email is Some) {
                Err(DecodeError::DuplicateField)
            } else {
                let name2 = if k == name_key() {
                    Some(v)
                } else {
                    name
                };
                let email2 = if k == email_key() {
                    Some(v)
                } else {
                    email
                };
                if i >= s.len() {
                    Ok((name2, email2))
                } else {
                    scan_fields(s.skip(i + 1), name2, email2)
                }
            }
        },
    }
}

/// A field counts as given only when its decoded value is non-empty.
pub open spec fn provided(o: Option<Seq<u8>>) -> bool {
    match o {
        Some(v) => v.len() > 0,
        None => false,
    }
}

/// What a submitted body decodes to: both fields given, or the reason the
/// submission is rejected.
pub open spec fn spec_parse_form(body: Seq<u8>) -> Result<FormModel, DecodeError> {
    match scan_fields(body, None, None) {
        Err(e) => Err(e),
        Ok((n_opt, e_opt)) => {
            if provided(n_opt) && provided(e_opt) {
                Ok(FormModel { name: n_opt->Some_0, email: e_opt->Some_0 })
            } else if !provided(n_opt) && !provided(e_opt) {
                Err(DecodeError::MissingBoth)
            } else if !provided(n_opt) {
                Err(DecodeError::MissingName)
            } else {
                Err(DecodeError::MissingEmail)
            }
        },
    }
}

/// A byte folded to ASCII lower case.
pub open spec fn ascii_lower(b: u8) -> u8 {
    if 65 <= b && b <= 90 {
        (b + 32) as u8
    } else {
        b
    }
}

/// The bytes of the form media type, `application/x-www-form-urlencoded`.
pub open spec fn form_mime() -> Seq<u8> {
    seq![
        97u8, 112, 112, 108, 105, 99, 97, 116, 105, 111, 110, 47, 120, 45, 119, 119, 119, 45, 102,
        111, 114, 109, 45, 117, 114, 108, 101, 110, 99, 111, 100, 101, 100,
    ]
}

/// The declared content type names the form media type: it spells the
/// essence, case-insensitively, and whatever follows begins its parameter
/// list.
pub open spec fn is_form_content_type(ct: Seq<u8>) -> bool {
    &&& ct.len() >= form_mime().len()
    &&& forall|k: int| 0 <= k < form_mime().len() ==> ascii_lower(ct[k]) == form_mime()[k]
    &&& (ct.len() == form_mime().len() || ct[form_mime().len() as int] == SEMICOLON)
}

fn lower_byte(b: u8) -> (r: u8)
    ensures
        r == ascii_lower(b),
{
    if 65 <= b && b <= 90 {
        b + 32
    } else {
        b
    }
}

fn form_mime_bytes() -> (r: Vec<u8>)
    ensures
        r@ == form_mime(),
{
    let mut v: Vec<u8> = Vec::new();
    v.push(97);
    v.push(112);
    v.push(112);
    v.push(108);
    v.push(105);
    v.push(99);
    v.push(97);
    v.push(116);
    v.push(105);
    v.push(111);
    v.push(110);
    v.push(47);
    v.push(120);
    v.push(45);
    v.push(119);
    v.push(119);
    v.push(119);
    v.push(45);
    v.push(102);
    v.push(111);
    v.push(114);
    v.push(109);
    v.push(45);
    v.push(117);
    v.push(114);
    v.push(108);
    v.push(101);
    v.push(110);
    v.push(99);
    v.push(111);
    v.push(100);
    v.push(101);
    v.push(100);
    proof {
        assert(v@ =~= form_mime());
    }
    v
}

/// Decide whether the declared content type names the form media type.
pub fn is_form_content_type_bytes(ct: &Vec<u8>) -> (r: bool)
    ensures
        r == is_form_content_type(ct@),
{
    let expected = form_mime_bytes();
    if ct.len() < expected.len() {
        return false;
    }
    let mut k: usize = 0;
    while k < expected.len()
        invariant
            k <= expected@.len(),
            expected@ == form_mime(),
            ct@.len() >= form_mime().len(),
            forall|t: int| 0 <= t < k ==> ascii_lower(ct@[t]) == form_mime()[t],
        decreases expected@.len() - k,
    {
        if lower_byte(ct[k]) != expected[k] {
            return false;
        }
        k = k + 1;
    }
    ct.len() == expected.len() || ct[expected.len()] == SEMICOLON
}

/// The field an optional vector stands for.
pub open spec fn opt_vec_view(o: Option<Vec<u8>>) -> Option<Seq<u8>> {
    match o {
        Some(v) => Some(v@),
        None => None,
    }
}

fn find_byte(s: &Vec<u8>, from: usize, sep: u8) -> (r: usize)
    requires
        from <= s@.len(),
    ensures
        from <= r <= s@.len(),
        r - from == first_index_of(s@.skip(from as int), sep),
        r < s@.len() ==> s@[r as int] == sep,
        forall|k: int| from <= k < r ==> s@[k] != sep,
{
    let mut j: usize = from;
    while j < s.len() && s[j] != sep
        invariant
            from <= j <= s@.len(),
            forall|k: int| from <= k < j ==> s@[k] != sep,
        decreases s@.len() - j,
    {
        j = j + 1;
    }
    proof {
        let suf = s@.skip(from as int);
        assert forall|k: int| 0 <= k < j - from implies suf[k] != sep by {
            assert(suf[k] == s@[k + from]);
        }
        if j < s.len() {
            assert(suf[j - from] == s@[j as int]);
        }
        lemma_first_index_of_unique(suf, sep, j - from);
    }
    j
}

fn subrange_to_vec(s: &Vec<u8>, from: usize, to: usize) -> (r: Vec<u8>)
    requires
        from <= to <= s@.len(),
    ensures
        r@ == s@.subrange(from as int, to as int),
{
    let mut r: Vec<u8> = Vec::new();
    let mut j: usize = from;
    proof {
        assert(r@ =~= s@.subrange(from as int, from as int));
    }
    while j < to
        invariant
            from <= j <= to <= s@.len(),
            r@ == s@.subrange(from as int, j as int),
        decreases to - j,
    {
        r.push(s[j]);
        proof {
            assert(r@ =~= s@.subrange(from as int, (j + 1) as int));
        }
        j = j + 1;
    }
    r
}

fn is_name_key(k: &Vec<u8>) -> (r: bool)
    ensures
        r == (k@ == name_key()),
{
    let r = k.len() == 4 && k[0] == 110 && k[1] == 97 && k[2] == 109 && k[3] == 101;
    proof {
        if k@ == name_key() {
            assert(k@.len() == 4 && k@[0] == 110 && k@[1] == 97 && k@[2] == 109 && k@[3] == 101);
        }
        if r {
            assert(k@ =~= name_key());
        }
    }
    r
}

fn is_email_key(k: &Vec<u8>) -> (r: bool)
    ensures
        r == (k@ == email_key()),
{
    let r = k.len() == 5 && k[0] == 101 && k[1] == 109 && k[2] == 97 && k[3] == 105 && k[4]
        == 108;
    proof {
        if k@ == email_key() {
            assert(k@.len() == 5 && k@[0] == 101 && k@[1] == 109 && k@[2] == 97 && k@[3] == 105
                && k@[4] == 108);
        }
        if r {
            assert(k@ =~= email_key());
        }
    }
    r
}

/// Decode a submitted body into its two fields, or say why it is rejected.
pub fn parse_form(body: &Vec<u8>) -> (r: Result<FormData, DecodeError>)
    ensures
        match (r, spec_parse_form(body@)) {
            (Ok(f), Ok(m)) => f.name@ == m.name && f.email@ == m.email,
            (Err(e), Err(me)) => e == me,
            _ => false,
        },
{
    let mut pos: usize = 0;
    let mut name: Option<Vec<u8>> = None;
    let mut email: Option<Vec<u8>> = None;
    let mut done = false;
    proof {
        assert(body@.skip(0) =~= body@);
    }
    while !done
        invariant
            pos <= body@.len(),
            !done ==> scan_fields(body@, None, None) == scan_fields(
                body@.skip(pos as int),
                opt_vec_view(name),
                opt_vec_view(email),
            ),
            done ==> scan_fields(body@, None, None) == Ok::<_, DecodeError>(
                (opt_vec_view(name), opt_vec_view(email)),
            ),
        decreases
                body@.len() - pos,
                (if done {
                    0int
                } else {
                    1int
                }),
    {
        let ghost suf = body@.skip(pos as int);
        let amp = find_byte(body, pos, AMP);
        let ghost i = amp - pos;
        let seg = subrange_to_vec(body, pos, amp);
        proof {
            assert(seg@ =~= suf.take(i as int));
        }
        let eq_i = find_byte(&seg, 0, EQUALS);
        proof {
            assert(seg@.skip(0) =~= seg@);
        }
        let raw_key = subrange_to_vec(&seg, 0, eq_i);
        proof {
            assert(raw_key@ =~= seg@.take(eq_i as int));
        }
        let raw_value = if eq_i == seg.len() {
            Vec::new()
        } else {
            subrange_to_vec(&seg, eq_i + 1, seg.len())
        };
        proof {
            if eq_i < seg.len() {
                assert(raw_value@ =~= seg@.skip(eq_i + 1));
            } else {
                assert(raw_value@ =~= Seq::<u8>::empty());
            }
        }
        let key_opt = decode_component(&raw_key);
        let value_opt = decode_component(&raw_value);
        let (key, value) = match (key_opt, value_opt) {
            (Some(k), Some(v)) => (k, v),
            _ => {
                proof {
                    assert(parsed_segment(seg@) is None);
                    assert(scan_fields(suf, opt_vec_view(name), opt_vec_view(email)) == Err::<
                        (Option<Seq<u8>>, Option<Seq<u8>>),
                        _,
                    >(DecodeError::InvalidEncoding));
                }
                return Err(DecodeError::InvalidEncoding);
            },
        };
        proof {
            assert(parsed_segment(seg@) == Some((key@, value@)));
        }
        let k_is_name = is_name_key(&key);
        let k_is_email = is_email_key(&key);
        if (k_is_name && name.is_some()) || (k_is_email && email.is_some()) {
            proof {
                assert(scan_fields(suf, opt_vec_view(name), opt_vec_view(email)) == Err::<
                    (Option<Seq<u8>>, Option<Seq<u8>>),
                    _,
                >(DecodeError::DuplicateField));
            }
            return Err(DecodeError::DuplicateField);
        }
        if k_is_name {
            name = Some(value);
        } else if k_is_email {
            email = Some(value);
        }
        if amp == body.len() {
            done = true;
        } else {
            proof {
                assert(suf.skip(i + 1) =~= body@.skip(amp + 1));
            }
            pos = amp + 1;
        }
    }
    let name_ok = match &name {
        Some(n) => n.len() > 0,
        None => false,
    };
    let email_ok = match &email {
        Some(e) => e.len() > 0,
        None => false,
    };
    if name_ok && email_ok {
        Ok(FormData { name: name.unwrap(), email: email.unwrap() })
    } else if !name_ok && !email_ok {
        Err(DecodeError::MissingBoth)
    } else if !name_ok {
        Err(DecodeError::MissingName)
    } else {
        Err(DecodeError::MissingEmail)
    }
}

} // verus!
