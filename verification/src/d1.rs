//! Decoding of the receipts that the D1 backend reads back from its atomic
//! batches: failure codes, flags, decimal revisions and directory rows.
use vstd::prelude::*;
use crate::storage::{Bootstrap, Decision, DirectoryRole, DirectoryRolePage, DomainFailure, Mutation};
use crate::text::same_text;

verus! {

/// A storage failure of the D1 backend.
#[derive(Clone, Copy, Debug, PartialEq, Eq, Structural)]
pub enum Error {
    /// The batch could not be submitted; a submitted write may have committed.
    Transport,
    /// A stored value or receipt is not what the schema allows.
    InvalidState,
}

/// The D1 backend over a primary-database transport.
pub struct D1Store<T>(pub T);

/// One field of a receipt row, as the transport returned it.
#[derive(Clone, Debug, PartialEq, Eq)]
pub enum ReceiptField {
    Absent,
    Null,
    Text(String),
    Integer(i64),
    Other,
}

/// The domain failure a receipt failure code names.
pub open spec fn failure_named(code: Seq<char>) -> Option<DomainFailure> {
    if code == "scope_missing"@ {
        Some(DomainFailure::ScopeNotBootstrapped)
    } else if code == "scope_exists"@ {
        Some(DomainFailure::ScopeAlreadyBootstrapped)
    } else if code == "forbidden"@ {
        Some(DomainFailure::Forbidden)
    } else if code == "role_exists"@ {
        Some(DomainFailure::RoleAlreadyExists)
    } else if code == "role_missing"@ {
        Some(DomainFailure::RoleNotFound)
    } else if code == "protected_role"@ {
        Some(DomainFailure::ProtectedRole)
    } else if code == "protected_binding"@ {
        Some(DomainFailure::ProtectedBinding)
    } else {
        None
    }
}

/// A `failure` field: null for success, else a known failure code.
pub open spec fn failure_field(f: ReceiptField) -> Result<Option<DomainFailure>, Error> {
    match f {
        ReceiptField::Null => Ok(None),
        ReceiptField::Text(code) => match failure_named(code@) {
            Some(d) => Ok(Some(d)),
            None => Err(Error::InvalidState),
        },
        _ => Err(Error::InvalidState),
    }
}

pub fn decode_failure(field: &ReceiptField) -> (r: Result<Option<DomainFailure>, Error>)
    ensures
        r == failure_field(*field),
{
    match field {
        ReceiptField::Null => Ok(None),
        ReceiptField::Text(code) => {
            let c = code.as_str();
            if same_text(c, "scope_missing") {
                Ok(Some(DomainFailure::ScopeNotBootstrapped))
            } else if same_text(c, "scope_exists") {
                Ok(Some(DomainFailure::ScopeAlreadyBootstrapped))
            } else if same_text(c, "forbidden") {
                Ok(Some(DomainFailure::Forbidden))
            } else if same_text(c, "role_exists") {
                Ok(Some(DomainFailure::RoleAlreadyExists))
            } else if same_text(c, "role_missing") {
                Ok(Some(DomainFailure::RoleNotFound))
            } else if same_text(c, "protected_role") {
                Ok(Some(DomainFailure::ProtectedRole))
            } else if same_text(c, "protected_binding") {
                Ok(Some(DomainFailure::ProtectedBinding))
            } else {
                Err(Error::InvalidState)
            }
        },
        _ => Err(Error::InvalidState),
    }
}

/// A 0/1 flag field.
pub open spec fn flag_field(f: ReceiptField) -> Result<bool, Error> {
    match f {
        ReceiptField::Integer(0) => Ok(false),
        ReceiptField::Integer(1) => Ok(true),
        _ => Err(Error::InvalidState),
    }
}

pub fn decode_flag(field: &ReceiptField) -> (r: Result<bool, Error>)
    ensures
        r == flag_field(*field),
{
    match field {
        ReceiptField::Integer(v) => {
            if *v == 0 {
                Ok(false)
            } else if *v == 1 {
                Ok(true)
            } else {
                Err(Error::InvalidState)
            }
        },
        _ => Err(Error::InvalidState),
    }
}

/// The value of a non-empty run of ASCII digits.
pub open spec fn digits_value(s: Seq<char>) -> int
    decreases s.len(),
{
    if s.len() == 0 {
        0
    } else {
        digits_value(s.drop_last()) * 10 + ((s.last() as u32) as int - 48)
    }
}

pub open spec fn all_digits(s: Seq<char>) -> bool {
    forall|i: int| 0 <= i < s.len() ==> 48 <= (#[trigger] s[i] as u32) <= 57
}

/// The value that `str::parse::<i64>` reads from `s`: an optional `+` or `-`
/// followed by one or more ASCII digits, within the `i64` range.
pub open spec fn parsed_i64(s: Seq<char>) -> Option<int> {
    let negative = s.len() > 0 && s[0] == '-';
    let body = if s.len() > 0 && (s[0] == '-' || s[0] == '+') { s.drop_first() } else { s };
    let v = if negative { -digits_value(body) } else { digits_value(body) };
    if body.len() > 0 && all_digits(body) && i64::MIN <= v <= i64::MAX {
        Some(v)
    } else {
        None
    }
}

/// Decimal text of a non-negative `i64`.
pub open spec fn revision_text(s: Seq<char>) -> Result<i64, Error> {
    match parsed_i64(s) {
        Some(v) => if v >= 0 { Ok(v as i64) } else { Err(Error::InvalidState) },
        None => Err(Error::InvalidState),
    }
}

/// A revision field: decimal text of a non-negative `i64`.
pub open spec fn revision_field(f: ReceiptField) -> Result<i64, Error> {
    match f {
        ReceiptField::Text(t) => revision_text(t@),
        _ => Err(Error::InvalidState),
    }
}

proof fn lemma_digits_value_nonneg(s: Seq<char>)
    requires
        all_digits(s),
    ensures
        digits_value(s) >= 0,
    decreases s.len(),
{
    if s.len() > 0 {
        lemma_digits_value_nonneg(s.drop_last());
    }
}

proof fn lemma_digits_value_grows(s: Seq<char>, i: int)
    requires
        all_digits(s),
        0 <= i <= s.len(),
    ensures
        digits_value(s.subrange(0, i)) <= digits_value(s),
    decreases s.len() - i,
{
    if i < s.len() {
        lemma_digits_value_grows(s, i + 1);
        let t = s.subrange(0, i + 1);
        assert(t.drop_last() =~= s.subrange(0, i));
        lemma_digits_value_nonneg(s.subrange(0, i));
    } else {
        assert(s.subrange(0, i) =~= s);
    }
}

/// Reads a non-negative decimal `i64`.
pub fn decode_revision(field: &ReceiptField) -> (r: Result<i64, Error>)
    ensures
        r == revision_field(*field),
{
    let t = match field {
        ReceiptField::Text(t) => t,
        _ => return Err(Error::InvalidState),
    };
    let cs = crate::text::chars_of(t.as_str());
    let ghost s = t@;
    let n = cs.len();
    if n == 0 {
        return Err(Error::InvalidState);
    }
    let negative = cs[0] == '-';
    let start: usize = if cs[0] == '-' || cs[0] == '+' { 1 } else { 0 };
    let ghost body = if s.len() > 0 && (s[0] == '-' || s[0] == '+') { s.drop_first() } else { s };
    assert(body =~= s.subrange(start as int, n as int));
    if start == n {
        return Err(Error::InvalidState);
    }
    let mut value: u64 = 0;
    let mut i: usize = start;
    while i < n
        invariant
            start <= i <= n,
            n == s.len(),
            cs@ == s,
            body == s.subrange(start as int, n as int),
            all_digits(s.subrange(start as int, i as int)),
            value as int == digits_value(s.subrange(start as int, i as int)),
            value <= i64::MAX,
            revision_field(*field) == revision_text(s),
            negative == (s[0] == '-'),
            start == (if s[0] == '-' || s[0] == '+' { 1usize } else { 0usize }),
            n > 0,
        decreases n - i,
    {
        let c = cs[i];
        let u = c as u32;
        if !(48 <= u && u <= 57) {
            assert(!all_digits(body)) by {
                assert(body[i - start] == c);
                assert(!(48 <= (body[i - start] as u32) <= 57));
            }
            return Err(Error::InvalidState);
        }
        let d = (u - 48) as u64;
        assert(s.subrange(start as int, i + 1).drop_last() =~= s.subrange(start as int, i as int));
        if value > (9223372036854775807u64 - d) / 10 {
            // the value no longer fits: either it overflows `i64`, or it is a
            // non-zero magnitude under a minus sign
            proof {
                assert(all_digits(s.subrange(start as int, i + 1)));
                assert(digits_value(s.subrange(start as int, i + 1)) > i64::MAX);
                assert(all_digits(body) ==> digits_value(body) > i64::MAX) by {
                    if all_digits(body) {
                        assert(s.subrange(start as int, i + 1) =~= body.subrange(0, i + 1 - start));
                        lemma_digits_value_grows(body, i + 1 - start);
                    }
                }
                if start == 1 {
                    assert(s.drop_first() =~= body);
                } else {
                    assert(s =~= body);
                }
            }
            return Err(Error::InvalidState);
        }
        value = value * 10 + d;
        i = i + 1;
    }
    assert(s.subrange(start as int, n as int) =~= body);
    if negative && value != 0 {
        return Err(Error::InvalidState);
    }
    Ok(value as i64)
}

/// A mutation receipt: a known failure, or the change flag and new revision.
pub open spec fn mutation_receipt(
    failure: ReceiptField,
    changed: ReceiptField,
    revision: ReceiptField,
) -> Result<Result<Mutation, DomainFailure>, Error> {
    match failure_field(failure) {
        Err(e) => Err(e),
        Ok(Some(f)) => Ok(Err(f)),
        Ok(None) => match flag_field(changed) {
            Err(e) => Err(e),
            Ok(c) => match revision_field(revision) {
                Err(e) => Err(e),
                Ok(v) => Ok(Ok(Mutation { changed: c, revision: v })),
            },
        },
    }
}

pub fn decode_mutation(failure: &ReceiptField, changed: &ReceiptField, revision: &ReceiptField) -> (r:
    Result<Result<Mutation, DomainFailure>, Error>)
    ensures
        r == mutation_receipt(*failure, *changed, *revision),
{
    match decode_failure(failure)? {
        Some(f) => Ok(Err(f)),
        None => {
            let c = decode_flag(changed)?;
            let v = decode_revision(revision)?;
            Ok(Ok(Mutation { changed: c, revision: v }))
        },
    }
}


/// What `serde_json::from_str::<Vec<String>>` reads from `json`, if anything.
pub uninterp spec fn parsed_text_list(json: Seq<char>) -> Option<Seq<Seq<char>>>;

/// Reads a JSON array of strings (`serde_json::from_str::<Vec<String>>`).
/// The contract claims only that the result is a function of the text:
/// `None` when the text is not such an array, else the strings in order.
#[verifier::external_body]
fn parse_text_list(json: &str) -> (r: Option<Vec<String>>)
    ensures
        match r {
            Some(v) => parsed_text_list(json@) == Some(v@.map_values(|t: String| t@)),
            None => parsed_text_list(json@) is None,
        },
{
    serde_json::from_str::<Vec<String>>(json).ok()
}

/// One row of a directory read: the scope revision, and the columns of one
/// role (all null when the scope has no role on the page).
#[derive(Clone, Debug, PartialEq, Eq)]
pub struct DirectoryRow {
    pub revision: ReceiptField,
    pub role_id: ReceiptField,
    pub name: ReceiptField,
    pub protected: ReceiptField,
    pub permissions: ReceiptField,
}

/// A row that carries a role (its `role_id` is neither null nor absent).
pub open spec fn carries_role(row: DirectoryRow) -> bool {
    !(row.role_id is Null || row.role_id is Absent)
}

/// A role decoded from a directory row: `(role_id, name, protected, permissions)`.
pub open spec fn row_role(row: DirectoryRow) -> Result<(Seq<char>, Seq<char>, bool, Seq<Seq<char>>), Error> {
    match (row.role_id, row.name, flag_field(row.protected), row.permissions) {
        (ReceiptField::Text(id), ReceiptField::Text(name), Ok(p), ReceiptField::Text(json)) => match parsed_text_list(json@) {
            Some(perms) => Ok((id@, name@, p, perms)),
            None => Err(Error::InvalidState),
        },
        (ReceiptField::Text(id), ReceiptField::Text(name), Err(e), _) => Err(e),
        _ => Err(Error::InvalidState),
    }
}

/// The rows that carry roles, in order.
pub open spec fn role_rows(rows: Seq<DirectoryRow>) -> Seq<DirectoryRow>
    decreases rows.len(),
{
    if rows.len() == 0 {
        Seq::empty()
    } else if carries_role(rows.last()) {
        role_rows(rows.drop_last()).push(rows.last())
    } else {
        role_rows(rows.drop_last())
    }
}

/// The role rows of a prefix of the rows are a prefix of the role rows.
proof fn lemma_role_rows_prefix(rows: Seq<DirectoryRow>, i: int)
    requires
        0 <= i <= rows.len(),
    ensures
        role_rows(rows.subrange(0, i)).len() <= role_rows(rows).len(),
        role_rows(rows.subrange(0, i)) =~= role_rows(rows).subrange(0, role_rows(rows.subrange(0, i)).len() as int),
    decreases rows.len() - i,
{
    if i == rows.len() {
        assert(rows.subrange(0, i) =~= rows);
    } else {
        lemma_role_rows_prefix(rows, i + 1);
        assert(rows.subrange(0, i + 1).drop_last() =~= rows.subrange(0, i));
    }
}

/// Once a failure is found among the first `j` role rows, it stays the first
/// failure among any longer run.
proof fn lemma_first_failure_stays(rows: Seq<DirectoryRow>, j: int, k: int)
    requires
        0 <= j <= k,
        first_row_failure(rows, j) is Some,
    ensures
        first_row_failure(rows, k) == first_row_failure(rows, j),
    decreases k - j,
{
    if j < k {
        lemma_first_failure_stays(rows, j, k - 1);
    }
}

/// The first failure among the first `k` role rows, if any.
pub open spec fn first_row_failure(rows: Seq<DirectoryRow>, k: int) -> Option<Error>
    decreases k,
{
    if k <= 0 {
        None
    } else {
        match first_row_failure(rows, k - 1) {
            Some(e) => Some(e),
            None => match row_role(rows[k - 1]) {
                Err(e) => Some(e),
                Ok(_) => None,
            },
        }
    }
}

pub open spec fn role_matches(d: DirectoryRole, r: (Seq<char>, Seq<char>, bool, Seq<Seq<char>>)) -> bool {
    d.role_id@ == r.0 && d.name@ == r.1 && d.protected == r.2 && d.permissions@.map_values(|t: String| t@) == r.3
}

fn text_field(f: &ReceiptField) -> (r: Option<String>)
    ensures
        match *f {
            ReceiptField::Text(t) => r == Some(t),
            _ => r is None,
        },
{
    match f {
        ReceiptField::Text(t) => Some(t.clone()),
        _ => None,
    }
}

fn decode_row_role(row: &DirectoryRow) -> (r: Result<DirectoryRole, Error>)
    ensures
        match (r, row_role(*row)) {
            (Ok(d), Ok(m)) => role_matches(d, m),
            (Err(e), Err(f)) => e == f,
            _ => false,
        },
{
    let role_id = match text_field(&row.role_id) {
        Some(t) => t,
        None => return Err(Error::InvalidState),
    };
    let name = match text_field(&row.name) {
        Some(t) => t,
        None => return Err(Error::InvalidState),
    };
    let protected = decode_flag(&row.protected)?;
    let json = match text_field(&row.permissions) {
        Some(t) => t,
        None => return Err(Error::InvalidState),
    };
    match parse_text_list(json.as_str()) {
        Some(permissions) => Ok(DirectoryRole { role_id, name, protected, permissions }),
        None => Err(Error::InvalidState),
    }
}

/// A directory read decoded from its rows: no row means the scope has no
/// policy; otherwise the first `limit` role rows become the page, `has_more`
/// tells whether more role rows came back, and the first row's revision is
/// the page's.
pub open spec fn page_receipt_ok(
    rows: Seq<DirectoryRow>,
    limit: int,
    r: Result<Result<DirectoryRolePage, DomainFailure>, Error>,
) -> bool {
    if rows.len() == 0 {
        r == Ok::<Result<DirectoryRolePage, DomainFailure>, Error>(Err(DomainFailure::ScopeNotBootstrapped))
    } else {
        let values = role_rows(rows);
        let k = if values.len() < limit { values.len() as int } else { limit };
        match first_row_failure(values, k) {
            Some(e) => r == Err::<Result<DirectoryRolePage, DomainFailure>, Error>(e),
            None => match revision_field(rows[0].revision) {
                Err(e) => r == Err::<Result<DirectoryRolePage, DomainFailure>, Error>(e),
                Ok(v) => match r {
                    Ok(Ok(p)) => {
                        &&& p.revision == v
                        &&& p.has_more == (values.len() > limit)
                        &&& p.roles@.len() == k
                        &&& forall|i: int| 0 <= i < k ==> role_matches(#[trigger] p.roles@[i], row_role(values[i])->Ok_0)
                    },
                    _ => false,
                },
            },
        }
    }
}

/// Shapes the rows of a directory read into a page of at most `limit` roles.
pub fn decode_page(rows: &Vec<DirectoryRow>, limit: usize) -> (r: Result<Result<DirectoryRolePage, DomainFailure>, Error>)
    ensures
        page_receipt_ok(rows@, limit as int, r),
{
    if rows.len() == 0 {
        return Ok(Err(DomainFailure::ScopeNotBootstrapped));
    }
    let ghost values = role_rows(rows@);
    let mut roles: Vec<DirectoryRole> = Vec::new();
    let mut seen: usize = 0;
    let mut has_more = false;
    let mut i: usize = 0;
    assert(rows@.subrange(0, rows@.len() as int) =~= rows@);
    while i < rows.len()
        invariant_except_break
            !has_more,
            seen <= limit,
            role_rows(rows@.subrange(0, i as int)).len() == seen,
        invariant
            i <= rows@.len(),
            rows@.subrange(0, rows@.len() as int) == rows@,
            values == role_rows(rows@),
            roles@.len() == seen,
            seen <= values.len(),
            first_row_failure(values, seen as int) is None,
            forall|j: int| 0 <= j < seen ==> role_matches(#[trigger] roles@[j], row_role(values[j])->Ok_0),
        ensures
            has_more ==> seen == limit && values.len() > limit,
            !has_more ==> seen == values.len() && seen <= limit,
        decreases rows@.len() - i,
    {
        let row = &rows[i];
        let carries = match &row.role_id {
            ReceiptField::Null => false,
            ReceiptField::Absent => false,
            _ => true,
        };
        proof {
            lemma_role_rows_prefix(rows@, i + 1);
            assert(rows@.subrange(0, i + 1).drop_last() =~= rows@.subrange(0, i as int));
            assert(rows@.subrange(0, i + 1).last() == rows@[i as int]);
        }
        if carries {
            assert(role_rows(rows@.subrange(0, i + 1)) == role_rows(rows@.subrange(0, i as int)).push(rows@[i as int]));
            assert(values.subrange(0, seen + 1)[seen as int] == rows@[i as int]);
            assert(values[seen as int] == rows@[i as int]);
            if seen == limit {
                has_more = true;
                break;
            }
            let d = match decode_row_role(row) {
                Ok(d) => d,
                Err(e) => {
                    proof {
                        let k = if values.len() < limit { values.len() as int } else { limit as int };
                        lemma_first_failure_stays(values, seen + 1, k);
                    }
                    return Err(e);
                },
            };
            roles.push(d);
            seen = seen + 1;
        }
        i = i + 1;
    }
    let revision = decode_revision(&rows[0].revision)?;
    Ok(Ok(DirectoryRolePage { roles, revision, has_more }))
}

/// A batch is answered with exactly one result set per submitted statement.
pub fn check_batch(submitted: usize, answered: usize) -> (r: Result<(), Error>)
    ensures
        r is Ok <==> submitted == answered,
        r is Err ==> r == Err::<(), Error>(Error::InvalidState),
{
    if submitted == answered {
        Ok(())
    } else {
        Err(Error::InvalidState)
    }
}

/// The receipt of a mutation batch: the single row of its next-to-last result set.
pub fn receipt_row<T>(rows: &Vec<Vec<T>>) -> (r: Result<&T, Error>)
    requires
        rows@.len() >= 2,
    ensures
        match r {
            Ok(t) => rows@[rows@.len() - 2]@.len() == 1 && *t == rows@[rows@.len() - 2]@[0],
            Err(e) => rows@[rows@.len() - 2]@.len() != 1 && e == Error::InvalidState,
        },
{
    let set = &rows[rows.len() - 2];
    if set.len() == 1 {
        Ok(&set[0])
    } else {
        Err(Error::InvalidState)
    }
}

/// The row of a permission check: the `allowed` flag and the scope revision.
#[derive(Clone, Debug, PartialEq, Eq)]
pub struct DecisionRow {
    pub allowed: ReceiptField,
    pub revision: ReceiptField,
}

/// A permission check read back: no row means the scope holds no policy,
/// which denies at revision 0; otherwise the flag, then the revision.
pub open spec fn decision_receipt(row: Option<DecisionRow>) -> Result<Decision, Error> {
    match row {
        None => Ok(Decision { allowed: false, revision: 0 }),
        Some(row) => match flag_field(row.allowed) {
            Err(e) => Err(e),
            Ok(a) => match revision_field(row.revision) {
                Err(e) => Err(e),
                Ok(v) => Ok(Decision { allowed: a, revision: v }),
            },
        },
    }
}

pub fn decode_decision(row: Option<&DecisionRow>) -> (r: Result<Decision, Error>)
    ensures
        r == decision_receipt(
            match row {
                Some(x) => Some(*x),
                None => None,
            },
        ),
{
    match row {
        None => Ok(Decision { allowed: false, revision: 0 }),
        Some(row) => {
            let allowed = decode_flag(&row.allowed)?;
            let revision = decode_revision(&row.revision)?;
            Ok(Decision { allowed, revision })
        },
    }
}

/// The role a single-role directory read found, with the page's revision.
pub fn role_of_page(page: Result<DirectoryRolePage, DomainFailure>) -> (r: Result<(DirectoryRole, i64), DomainFailure>)
    ensures
        match page {
            Err(f) => r == Err::<(DirectoryRole, i64), DomainFailure>(f),
            Ok(p) => if p.roles@.len() > 0 {
                r matches Ok((d, v)) && d == p.roles@[0] && v == p.revision
            } else {
                r == Err::<(DirectoryRole, i64), DomainFailure>(DomainFailure::RoleNotFound)
            },
        },
{
    match page {
        Err(f) => Err(f),
        Ok(p) => {
            let revision = p.revision;
            let mut roles = p.roles;
            if roles.len() > 0 {
                let d = roles.remove(0);
                Ok((d, revision))
            } else {
                Err(DomainFailure::RoleNotFound)
            }
        },
    }
}

/// A bootstrap reported through a mutation receipt: `changed` means created.
pub fn bootstrap_of(outcome: Result<Mutation, DomainFailure>) -> (r: Result<Bootstrap, DomainFailure>)
    ensures
        match outcome {
            Ok(m) => r == Ok::<Bootstrap, DomainFailure>(Bootstrap { created: m.changed, revision: m.revision }),
            Err(f) => r == Err::<Bootstrap, DomainFailure>(f),
        },
{
    match outcome {
        Ok(m) => Ok(Bootstrap { created: m.changed, revision: m.revision }),
        Err(f) => Err(f),
    }
}

} // verus!
