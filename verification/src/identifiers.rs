//! Identifier rules for scopes, subjects, roles, permissions, display names and
//! secret references. Every rule is stated over the UTF-8 bytes (or, for
//! display names, the characters) of the candidate value.
use vstd::prelude::*;
use vstd::string::StringSliceAdditionalSpecFns;
use vstd::utf8::encode_utf8;
use crate::text::{byte_is_alnum, byte_is_digit, byte_is_lower, chars_of, is_alnum, is_digit, is_lower};
use crate::storage::ScopeKey;

verus! {

pub const MAX_SCOPE_KIND_BYTES: usize = 128;
pub const MAX_SCOPE_ID_BYTES: usize = 512;
pub const MAX_SUBJECT_BYTES: usize = 512;
pub const MAX_ROLE_ID_BYTES: usize = 128;
pub const MAX_ROLE_NAME_BYTES: usize = 200;
pub const MAX_PERMISSION_BYTES: usize = 200;
pub const MAX_PERMISSIONS_PER_ROLE: usize = 256;
pub const MAX_SECRET_REFERENCE_BYTES: usize = 256;

/// A byte allowed in an opaque identifier: ASCII letters, digits and `. _ - : /`.
pub open spec fn is_opaque_byte(b: u8) -> bool {
    is_alnum(b) || b == 0x2e || b == 0x5f || b == 0x2d || b == 0x3a || b == 0x2f
}

/// A non-empty identifier of at most `maximum` bytes drawn from the opaque alphabet.
pub open spec fn is_opaque_id(v: Seq<u8>, maximum: int) -> bool {
    &&& v.len() > 0
    &&& v.len() <= maximum
    &&& forall|i: int| 0 <= i < v.len() ==> is_opaque_byte(#[trigger] v[i])
}

/// A byte allowed anywhere in a scope kind: lower-case letters, digits and `. _ -`.
pub open spec fn is_scope_kind_byte(b: u8) -> bool {
    is_lower(b) || is_digit(b) || b == 0x2e || b == 0x5f || b == 0x2d
}

/// A scope kind: non-empty, at most 128 bytes, from the kind alphabet, and
/// starting and ending with an ASCII letter or digit.
pub open spec fn is_scope_kind(v: Seq<u8>) -> bool {
    &&& v.len() > 0
    &&& v.len() <= MAX_SCOPE_KIND_BYTES
    &&& forall|i: int| 0 <= i < v.len() ==> is_scope_kind_byte(#[trigger] v[i])
    &&& is_alnum(v[0])
    &&& is_alnum(v[v.len() - 1])
}

pub open spec fn is_scope(kind: Seq<u8>, id: Seq<u8>) -> bool {
    is_scope_kind(kind) && is_opaque_id(id, MAX_SCOPE_ID_BYTES as int)
}

pub open spec fn is_subject(v: Seq<u8>) -> bool {
    is_opaque_id(v, MAX_SUBJECT_BYTES as int)
}

pub open spec fn is_role_id(v: Seq<u8>) -> bool {
    is_opaque_id(v, MAX_ROLE_ID_BYTES as int)
}

/// A permission is an opaque identifier of at most 200 bytes holding at least one `.`.
pub open spec fn is_permission(v: Seq<u8>) -> bool {
    is_opaque_id(v, MAX_PERMISSION_BYTES as int) && v.contains(0x2e)
}

/// An opaque identifier that holds no `/`.
pub open spec fn is_identifier(v: Seq<u8>, maximum: int) -> bool {
    is_opaque_id(v, maximum) && !v.contains(0x2f)
}

pub fn valid_opaque_id(value: &str, maximum: usize) -> (r: bool)
    ensures
        r == is_opaque_id(value.spec_bytes(), maximum as int),
{
    let bytes = value.as_bytes();
    if bytes.len() == 0 || bytes.len() > maximum {
        return false;
    }
    let mut i: usize = 0;
    while i < bytes.len()
        invariant
            i <= bytes@.len(),
            bytes@ == value.spec_bytes(),
            forall|j: int| 0 <= j < i ==> is_opaque_byte(#[trigger] bytes@[j]),
        decreases bytes@.len() - i,
    {
        let b = bytes[i];
        if !(byte_is_alnum(b) || b == 0x2e || b == 0x5f || b == 0x2d || b == 0x3a || b == 0x2f) {
            return false;
        }
        i = i + 1;
    }
    true
}

/// Whether `bytes` holds the byte `target`.
pub fn bytes_contain(bytes: &[u8], target: u8) -> (r: bool)
    ensures
        r == bytes@.contains(target),
{
    let mut i: usize = 0;
    while i < bytes.len()
        invariant
            i <= bytes@.len(),
            forall|j: int| 0 <= j < i ==> bytes@[j] != target,
        decreases bytes@.len() - i,
    {
        if bytes[i] == target {
            return true;
        }
        i = i + 1;
    }
    false
}

pub fn valid_scope_kind(value: &str) -> (r: bool)
    ensures
        r == is_scope_kind(value.spec_bytes()),
{
    let bytes = value.as_bytes();
    if bytes.len() == 0 || bytes.len() > MAX_SCOPE_KIND_BYTES {
        return false;
    }
    let mut i: usize = 0;
    while i < bytes.len()
        invariant
            i <= bytes@.len(),
            bytes@ == value.spec_bytes(),
            forall|j: int| 0 <= j < i ==> is_scope_kind_byte(#[trigger] bytes@[j]),
        decreases bytes@.len() - i,
    {
        let b = bytes[i];
        if !(byte_is_lower(b) || byte_is_digit(b) || b == 0x2e || b == 0x5f || b == 0x2d) {
            return false;
        }
        i = i + 1;
    }
    byte_is_alnum(bytes[0]) && byte_is_alnum(bytes[bytes.len() - 1])
}

pub fn valid_scope(scope: &ScopeKey) -> (r: bool)
    ensures
        r == is_scope(encode_utf8(scope.kind@), encode_utf8(scope.id@)),
{
    valid_scope_kind(scope.kind.as_str()) && valid_opaque_id(scope.id.as_str(), MAX_SCOPE_ID_BYTES)
}


pub fn valid_subject(value: &str) -> (r: bool)
    ensures
        r == is_subject(value.spec_bytes()),
{
    valid_opaque_id(value, MAX_SUBJECT_BYTES)
}

pub fn valid_role_id(value: &str) -> (r: bool)
    ensures
        r == is_role_id(value.spec_bytes()),
{
    valid_opaque_id(value, MAX_ROLE_ID_BYTES)
}

pub fn valid_permission(value: &str) -> (r: bool)
    ensures
        r == is_permission(value.spec_bytes()),
{
    valid_opaque_id(value, MAX_PERMISSION_BYTES) && bytes_contain(value.as_bytes(), 0x2e)
}

pub fn valid_identifier(value: &str, maximum: usize) -> (r: bool)
    ensures
        r == is_identifier(value.spec_bytes(), maximum as int),
{
    valid_opaque_id(value, maximum) && !bytes_contain(value.as_bytes(), 0x2f)
}

/// Unicode `White_Space`, the set that `str::trim` removes.
pub open spec fn is_white_space(c: char) -> bool {
    let u = c as u32;
    ||| 0x9 <= u <= 0xd
    ||| u == 0x20
    ||| u == 0x85
    ||| u == 0xa0
    ||| u == 0x1680
    ||| 0x2000 <= u <= 0x200a
    ||| u == 0x2028
    ||| u == 0x2029
    ||| u == 0x202f
    ||| u == 0x205f
    ||| u == 0x3000
}

/// General category `Cc`.
pub open spec fn is_control(c: char) -> bool {
    let u = c as u32;
    u <= 0x1f || (0x7f <= u && u <= 0x9f)
}

pub fn char_is_white_space(c: char) -> (r: bool)
    ensures
        r == is_white_space(c),
{
    let u = c as u32;
    (0x9 <= u && u <= 0xd) || u == 0x20 || u == 0x85 || u == 0xa0 || u == 0x1680 || (0x2000
        <= u && u <= 0x200a) || u == 0x2028 || u == 0x2029 || u == 0x202f || u == 0x205f || u
        == 0x3000
}

pub fn char_is_control(c: char) -> (r: bool)
    ensures
        r == is_control(c),
{
    let u = c as u32;
    u <= 0x1f || (0x7f <= u && u <= 0x9f)
}

pub open spec fn trim_start(v: Seq<char>) -> Seq<char>
    decreases v.len(),
{
    if v.len() > 0 && is_white_space(v[0]) {
        trim_start(v.drop_first())
    } else {
        v
    }
}

pub open spec fn trim_end(v: Seq<char>) -> Seq<char>
    decreases v.len(),
{
    if v.len() > 0 && is_white_space(v.last()) {
        trim_end(v.drop_last())
    } else {
        v
    }
}

/// `v` without its leading and trailing white space.
pub open spec fn trimmed(v: Seq<char>) -> Seq<char> {
    trim_end(trim_start(v))
}

/// A role display name: after trimming, non-empty, at most 200 UTF-8 bytes,
/// and free of control characters.
pub open spec fn is_display_name(v: Seq<char>) -> bool {
    let t = trimmed(v);
    &&& t.len() > 0
    &&& encode_utf8(t).len() <= MAX_ROLE_NAME_BYTES
    &&& forall|i: int| 0 <= i < t.len() ==> !is_control(#[trigger] t[i])
}

pub fn valid_display_name(value: &str) -> (r: bool)
    ensures
        r == is_display_name(value@),
{
    let cs = chars_of(value);
    let n = cs.len();
    let ghost v = value@;
    let mut i: usize = 0;
    assert(v.subrange(0, n as int) =~= v);
    while i < n && char_is_white_space(cs[i])
        invariant
            i <= n,
            n == v.len(),
            cs@ == v,
            v == value@,
            trim_start(v) == trim_start(v.subrange(i as int, n as int)),
        decreases n - i,
    {
        assert(v.subrange(i as int, n as int).drop_first() =~= v.subrange(i + 1, n as int));
        i = i + 1;
    }
    assert(trim_start(v) == v.subrange(i as int, n as int));
    let mut j: usize = n;
    while j > i && char_is_white_space(cs[j - 1])
        invariant
            i <= j <= n,
            n == v.len(),
            cs@ == v,
            v == value@,
            trimmed(v) == trim_end(v.subrange(i as int, j as int)),
        decreases j - i,
    {
        assert(v.subrange(i as int, j as int).drop_last() =~= v.subrange(i as int, j - 1));
        j = j - 1;
    }
    let ghost t = v.subrange(i as int, j as int);
    assert(trimmed(v) == t);
    if i == j {
        return false;
    }
    let part = value.substring_char(i, j);
    assert(part.spec_bytes() == encode_utf8(t));
    if part.as_bytes().len() > MAX_ROLE_NAME_BYTES {
        return false;
    }
    let mut k: usize = i;
    while k < j
        invariant
            i <= k <= j <= n,
            n == v.len(),
            cs@ == v,
            v == value@,
            t == v.subrange(i as int, j as int),
            trimmed(v) == t,
            t.len() > 0,
            encode_utf8(t).len() <= MAX_ROLE_NAME_BYTES,
            forall|m: int| 0 <= m < k - i ==> !is_control(#[trigger] t[m]),
        decreases j - k,
    {
        if char_is_control(cs[k]) {
            assert(t[k - i] == cs@[k as int]);
            return false;
        }
        k = k + 1;
    }
    true
}

/// `v[i]` is a `.` that forms a whole `/`-separated segment.
pub open spec fn dot_segment_at(v: Seq<u8>, i: int) -> bool {
    &&& 0 <= i < v.len()
    &&& v[i] == 0x2e
    &&& (i == 0 || v[i - 1] == 0x2f)
    &&& (i + 1 == v.len() || v[i + 1] == 0x2f)
}

/// `v[i]` and `v[i + 1]` are `..` that form a whole `/`-separated segment.
pub open spec fn dot_dot_segment_at(v: Seq<u8>, i: int) -> bool {
    &&& 0 <= i && i + 1 < v.len()
    &&& v[i] == 0x2e
    &&& v[i + 1] == 0x2e
    &&& (i == 0 || v[i - 1] == 0x2f)
    &&& (i + 2 == v.len() || v[i + 2] == 0x2f)
}

/// A relative secret reference: 1 to 256 opaque bytes, no leading or trailing
/// `/`, no empty segment (`//`), and no `.` or `..` segment.
pub open spec fn is_secret_reference(v: Seq<u8>) -> bool {
    &&& v.len() > 0
    &&& v.len() <= MAX_SECRET_REFERENCE_BYTES
    &&& v[0] != 0x2f
    &&& v[v.len() - 1] != 0x2f
    &&& forall|i: int| 0 <= i < v.len() - 1 ==> !(v[i] == 0x2f && #[trigger] v[i + 1] == 0x2f)
    &&& forall|i: int| !#[trigger] dot_segment_at(v, i)
    &&& forall|i: int| !#[trigger] dot_dot_segment_at(v, i)
    &&& is_opaque_id(v, MAX_SECRET_REFERENCE_BYTES as int)
}

pub fn valid_secret_reference(reference: &str) -> (r: bool)
    ensures
        r == is_secret_reference(reference.spec_bytes()),
{
    let v = reference.as_bytes();
    let n = v.len();
    if n == 0 || n > MAX_SECRET_REFERENCE_BYTES || v[0] == 0x2f || v[n - 1] == 0x2f {
        return false;
    }
    let mut i: usize = 0;
    while i < n
        invariant
            i <= n,
            n == v@.len(),
            v@ == reference.spec_bytes(),
            n > 0,
            forall|k: int| 0 <= k < i && k < n - 1 ==> !(v@[k] == 0x2f && #[trigger] v@[k + 1] == 0x2f),
            forall|k: int| 0 <= k < i ==> !#[trigger] dot_segment_at(v@, k),
            forall|k: int| 0 <= k < i ==> !#[trigger] dot_dot_segment_at(v@, k),
        decreases n - i,
    {
        if i + 1 < n && v[i] == 0x2f && v[i + 1] == 0x2f {
            assert(v@[i as int] == 0x2f && v@[i + 1] == 0x2f);
            assert(!is_secret_reference(reference.spec_bytes()));
            return false;
        }
        let starts_segment = i == 0 || v[i - 1] == 0x2f;
        if starts_segment && v[i] == 0x2e {
            if i + 1 == n || v[i + 1] == 0x2f {
                assert(dot_segment_at(v@, i as int));
                assert(!is_secret_reference(reference.spec_bytes()));
                return false;
            }
            if v[i + 1] == 0x2e && (i + 2 == n || v[i + 2] == 0x2f) {
                assert(dot_dot_segment_at(v@, i as int));
                return false;
            }
        }
        i = i + 1;
    }
    assert forall|k: int| !#[trigger] dot_segment_at(v@, k) by {
        if 0 <= k < n {
        }
    }
    assert forall|k: int| !#[trigger] dot_dot_segment_at(v@, k) by {
        if 0 <= k < n {
        }
    }
    valid_opaque_id(reference, MAX_SECRET_REFERENCE_BYTES)
}

/// The accepted page size of a directory read: 1 to 100 roles, after an
/// optional cursor that must itself be a role id.
pub open spec fn directory_page_limit(limit: i64, cursor: Option<Seq<u8>>) -> Option<usize> {
    if 1 <= limit <= 100 && (cursor matches Some(c) ==> is_role_id(c)) {
        Some(limit as usize)
    } else {
        None
    }
}

pub fn valid_directory_page(limit: i64, cursor: Option<&str>) -> (r: Option<usize>)
    ensures
        r == directory_page_limit(
            limit,
            match cursor {
                Some(c) => Some(c.spec_bytes()),
                None => None,
            },
        ),
{
    if !(1 <= limit && limit <= 100) {
        return None;
    }
    match cursor {
        Some(c) => {
            if !valid_role_id(c) {
                return None;
            }
        },
        None => {},
    }
    Some(limit as usize)
}

} // verus!
