//! Revision expressions and their resolution against the catalog.
//!
//! A revision names a target migration absolutely by id, or relative to
//! the head of the catalog or to the current migration. Resolution turns
//! it into a target index, and from there into an ordered plan of ids to
//! apply or revert.

use vstd::prelude::*;
use crate::bytes::{lex_lt, bytes_eq};
use crate::errors::ResolveError;
use crate::migrations::{Migration, MigrationId, catalog_sorted, catalog_ids_unique};

verus! {

/// A parsed revision expression.
#[derive(Debug, Clone)]
pub enum Revision {
    /// Relative to the head or to the current migration.
    Relative(RelativeRevision),
    /// An id named outright, as the raw bytes the caller wrote.
    Absolute(Vec<u8>),
}

/// A relative revision: an offset back from the head, or an offset (of
/// either sign) from the current migration.
#[derive(Debug, Clone, Copy)]
pub enum RelativeRevision {
    /// `head:<offset>`: `offset` migrations before the latest.
    Head(i32),
    /// `current:<offset>`: `offset` migrations after the current one.
    Current(i32),
}

/// The index of the first catalog entry with this id, or -1.
pub open spec fn find_id(cat: Seq<Migration>, id: Seq<u8>) -> int
    decreases cat.len(),
{
    if cat.len() == 0 {
        -1
    } else if cat[0]@.id == id {
        0
    } else if find_id(cat.skip(1), id) == -1 {
        -1
    } else {
        find_id(cat.skip(1), id) + 1
    }
}

/// What `find_id` returns: the first index whose entry has the id.
pub proof fn lemma_find_id(cat: Seq<Migration>, id: Seq<u8>)
    ensures
        find_id(cat, id) == -1 ==> forall|j: int| 0 <= j < cat.len() ==> cat[j]@.id != id,
        find_id(cat, id) != -1 ==> {
            let k = find_id(cat, id);
            &&& 0 <= k < cat.len()
            &&& cat[k]@.id == id
            &&& forall|j: int| 0 <= j < k ==> cat[j]@.id != id
        },
    decreases cat.len(),
{
    if cat.len() == 0 {
    } else if cat[0]@.id == id {
    } else {
        lemma_find_id(cat.skip(1), id);
        if find_id(cat.skip(1), id) == -1 {
            assert forall|j: int| 0 <= j < cat.len() implies cat[j]@.id != id by {
                if j >= 1 {
                    assert(cat.skip(1)[j - 1]@.id != id);
                }
            }
        } else {
            let k1 = find_id(cat.skip(1), id);
            assert(cat[k1 + 1] == cat.skip(1)[k1]);
            assert forall|j: int| 0 <= j < k1 + 1 implies cat[j]@.id != id by {
                if j >= 1 {
                    assert(cat.skip(1)[j - 1]@.id != id);
                }
            }
        }
    }
}

/// The target index a revision resolves to: an absolute id is looked up
/// in the catalog; `head:n` is `n` entries before the last; `current:n`
/// is `n` entries after the current index, in either direction. Indexes
/// outside the catalog are offset errors.
pub open spec fn spec_resolve_index(
    rev: Revision,
    cat: Seq<Migration>,
    current: Option<int>,
) -> Result<int, ResolveError> {
    match rev {
        Revision::Absolute(id) => if find_id(cat, id@) == -1 {
            Err(ResolveError::InvalidRevision)
        } else {
            Ok(find_id(cat, id@))
        },
        Revision::Relative(RelativeRevision::Head(off)) => if off < 0 {
            Err(ResolveError::InvalidOffset)
        } else if cat.len() - 1 - off < 0 {
            Err(ResolveError::OffsetTooLarge)
        } else {
            Ok(cat.len() - 1 - off)
        },
        Revision::Relative(RelativeRevision::Current(off)) => match current {
            None => Err(ResolveError::NoCurrentMigration),
            Some(ci) => if ci + off < 0 || ci + off >= cat.len() {
                Err(ResolveError::OffsetTooLarge)
            } else {
                Ok(ci + off)
            },
        },
    }
}

/// The index of the current migration: `None` when nothing is applied,
/// and an error when a current id is set but absent from the catalog.
pub open spec fn spec_current_index(cat: Seq<Migration>, current: Option<Seq<u8>>) -> Result<
    Option<int>,
    ResolveError,
> {
    match current {
        None => Ok(None),
        Some(id) => if find_id(cat, id) == -1 {
            Err(ResolveError::CurrentMigrationNotFound)
        } else {
            Ok(Some(find_id(cat, id)))
        },
    }
}

/// A `Result` of an index, with the index widened.
pub open spec fn as_int_result(r: Result<usize, ResolveError>) -> Result<int, ResolveError> {
    match r {
        Ok(i) => Ok(i as int),
        Err(e) => Err(e),
    }
}

/// An `Option` of an index, with the index widened.
pub open spec fn as_int_opt(o: Option<usize>) -> Option<int> {
    match o {
        Some(i) => Some(i as int),
        None => None,
    }
}

/// An optional current id, by value.
pub open spec fn opt_id_view(o: Option<&MigrationId>) -> Option<Seq<u8>> {
    match o {
        Some(id) => Some(id@),
        None => None,
    }
}

/// An optional current id held by value.
pub open spec fn opt_id_val_view(o: Option<MigrationId>) -> Option<Seq<u8>> {
    match o {
        Some(id) => Some(id@),
        None => None,
    }
}

/// The ids of a catalog, in catalog order.
pub open spec fn ids_of(cat: Seq<Migration>) -> Seq<Seq<u8>> {
    cat.map_values(|m: Migration| m@.id)
}

/// The id bytes of a plan, in plan order.
pub open spec fn plan_views(plan: Seq<MigrationId>) -> Seq<Seq<u8>> {
    plan.map_values(|id: MigrationId| id@)
}

/// A plan result, with each id taken to its bytes.
pub open spec fn as_plan_result(r: Result<Vec<MigrationId>, ResolveError>) -> Result<
    Seq<Seq<u8>>,
    ResolveError,
> {
    match r {
        Ok(v) => Ok(plan_views(v@)),
        Err(e) => Err(e),
    }
}

/// What an apply plans: with current index `i` (or none) and target
/// index `j`, the ids of the catalog slice `(i, j]`, ascending; a target
/// at or below current is `AlreadyApplied`.
pub open spec fn spec_revisions_to_apply(
    rev: Revision,
    cat: Seq<Migration>,
    current: Option<Seq<u8>>,
) -> Result<Seq<Seq<u8>>, ResolveError> {
    match spec_current_index(cat, current) {
        Err(e) => Err(e),
        Ok(ci) => match spec_resolve_index(rev, cat, ci) {
            Err(e) => Err(e),
            Ok(ti) => match ci {
                Some(c) => if ti <= c {
                    Err(ResolveError::AlreadyApplied)
                } else {
                    Ok(ids_of(cat).subrange(c + 1, ti + 1))
                },
                None => Ok(ids_of(cat).subrange(0, ti + 1)),
            },
        },
    }
}

/// What a revert plans: with current index `i` and target index `j`,
/// the ids of the catalog slice `(j, i]`, in descending order; a target
/// at or above current is `AlreadyReverted`, and with nothing applied
/// there is nothing to revert.
pub open spec fn spec_revisions_to_revert(
    rev: Revision,
    cat: Seq<Migration>,
    current: Option<Seq<u8>>,
) -> Result<Seq<Seq<u8>>, ResolveError> {
    match current {
        None => Err(ResolveError::NoCurrentMigration),
        Some(_) => match spec_current_index(cat, current) {
            Err(e) => Err(e),
            Ok(None) => Err(ResolveError::NoCurrentMigration),
            Ok(Some(ci)) => match spec_resolve_index(rev, cat, Some(ci)) {
                Err(e) => Err(e),
                Ok(ti) => if ti >= ci {
                    Err(ResolveError::AlreadyReverted)
                } else {
                    Ok(ids_of(cat).subrange(ti + 1, ci + 1).reverse())
                },
            },
        },
    }
}

/// ASCII whitespace, as trimming removes it.
pub open spec fn is_ws(b: u8) -> bool {
    b == 32 || (9 <= b && b <= 13)
}

/// The text with leading whitespace removed.
pub open spec fn trim_front(s: Seq<u8>) -> Seq<u8>
    decreases s.len(),
{
    if s.len() > 0 && is_ws(s[0]) {
        trim_front(s.skip(1))
    } else {
        s
    }
}

/// The text with trailing whitespace removed.
pub open spec fn trim_back(s: Seq<u8>) -> Seq<u8>
    decreases s.len(),
{
    if s.len() > 0 && is_ws(s[s.len() - 1]) {
        trim_back(s.drop_last())
    } else {
        s
    }
}

/// The text with surrounding whitespace removed.
pub open spec fn trim_spec(s: Seq<u8>) -> Seq<u8> {
    trim_back(trim_front(s))
}

/// The text with every ASCII capital turned lower-case.
pub open spec fn lower(s: Seq<u8>) -> Seq<u8> {
    s.map_values(|b: u8| if 65 <= b && b <= 90 {
        (b + 32) as u8
    } else {
        b
    })
}

/// Only decimal digits.
pub open spec fn digits_only(s: Seq<u8>) -> bool {
    forall|i: int| 0 <= i < s.len() ==> 48 <= #[trigger] s[i] <= 57
}

/// The number a string of decimal digits denotes.
pub open spec fn digits_val(s: Seq<u8>) -> int
    decreases s.len(),
{
    if s.len() == 0 {
        0
    } else {
        digits_val(s.drop_last()) * 10 + (s[s.len() - 1] - 48)
    }
}

/// The value of a digit string is never negative.
pub proof fn lemma_digits_val_nonneg(s: Seq<u8>)
    requires
        digits_only(s),
    ensures
        digits_val(s) >= 0,
    decreases s.len(),
{
    if s.len() > 0 {
        assert(digits_only(s.drop_last()));
        lemma_digits_val_nonneg(s.drop_last());
    }
}

/// A digit string is worth at least any of its prefixes.
pub proof fn lemma_digits_val_mono(s: Seq<u8>, i: int)
    requires
        digits_only(s),
        0 <= i <= s.len(),
    ensures
        digits_val(s.take(i)) <= digits_val(s),
    decreases s.len() - i,
{
    if i == s.len() {
        assert(s.take(i) =~= s);
    } else {
        assert(s.take(i + 1).drop_last() =~= s.take(i));
        assert(digits_only(s.take(i)));
        lemma_digits_val_nonneg(s.take(i));
        assert(digits_val(s.take(i + 1)) == digits_val(s.take(i)) * 10 + (s[i] - 48));
        lemma_digits_val_mono(s, i + 1);
    }
}

/// What `str::parse::<i32>` accepts: an optional sign, then one or more
/// digits, denoting a value within the type's range.
pub open spec fn parse_i32_spec(s: Seq<u8>) -> Option<int> {
    let body = if s.len() > 0 && (s[0] == 43 || s[0] == 45) {
        s.skip(1)
    } else {
        s
    };
    if body.len() == 0 || !digits_only(body) {
        None
    } else {
        let v = if s.len() > 0 && s[0] == 45 {
            -digits_val(body)
        } else {
            digits_val(body)
        };
        if -2147483648 <= v <= 2147483647 {
            Some(v)
        } else {
            None
        }
    }
}

/// The bytes of the keyword `head`.
pub open spec fn head_kw() -> Seq<u8> {
    seq![104u8, 101u8, 97u8, 100u8]
}

/// The bytes of the keyword `current`.
pub open spec fn current_kw() -> Seq<u8> {
    seq![99u8, 117u8, 114u8, 114u8, 101u8, 110u8, 116u8]
}

/// The keyword part of a revision text: the trimmed, lowercased text up
/// to the first `:`, or all of it when there is none.
pub open spec fn split_word(input: Seq<u8>) -> Seq<u8> {
    let t = lower(trim_spec(input));
    if crate::migrations::find_byte(t, 58) == -1 {
        t
    } else {
        t.take(crate::migrations::find_byte(t, 58))
    }
}

/// The offset part of a revision text: what follows the first `:`,
/// parsed as an `i32`; without a `:` the offset is zero.
pub open spec fn split_offset(input: Seq<u8>) -> Option<int> {
    let t = lower(trim_spec(input));
    if crate::migrations::find_byte(t, 58) == -1 {
        Some(0)
    } else {
        parse_i32_spec(t.skip(crate::migrations::find_byte(t, 58) + 1))
    }
}

/// Reads an `i32` from decimal text: an optional sign, then digits.
#[verifier::loop_isolation(false)]
fn parse_i32(s: &[u8]) -> (r: Result<i32, ResolveError>)
    ensures
        match parse_i32_spec(s@) {
            Some(v) => r matches Ok(x) && x == v,
            None => r == Err::<i32, _>(ResolveError::InvalidRevisionSyntax),
        },
{
    let has_sign = s.len() > 0 && (s[0] == 43 || s[0] == 45);
    let neg = s.len() > 0 && s[0] == 45;
    let start: usize = if has_sign {
        1
    } else {
        0
    };
    let ghost body = if has_sign {
        s@.skip(1)
    } else {
        s@
    };
    if s.len() == start {
        return Err(ResolveError::InvalidRevisionSyntax);
    }
    let bound: u64 = if neg {
        2147483648
    } else {
        2147483647
    };
    let mut acc: u64 = 0;
    let mut i: usize = start;
    proof {
        assert(body.take(0) =~= Seq::<u8>::empty());
    }
    while i < s.len()
        invariant
            start <= i <= s@.len(),
            acc == digits_val(body.take(i - start)),
            acc <= bound,
            digits_only(body.take(i - start)),
        decreases s@.len() - i,
    {
        let c = s[i];
        if c < 48 || c > 57 {
            proof {
                assert(body[i - start] == s@[i as int]);
            }
            return Err(ResolveError::InvalidRevisionSyntax);
        }
        proof {
            assert(body.take(i - start + 1).drop_last() =~= body.take(i - start));
            assert(body[i - start] == s@[i as int]);
            assert(digits_only(body.take(i - start + 1)));
        }
        acc = acc * 10 + ((c - 48) as u64);
        if acc > bound {
            proof {
                if digits_only(body) {
                    lemma_digits_val_mono(body, i - start + 1);
                }
            }
            return Err(ResolveError::InvalidRevisionSyntax);
        }
        i = i + 1;
    }
    proof {
        assert(body.take(s@.len() - start) =~= body);
    }
    if neg {
        Ok((-(acc as i64)) as i32)
    } else {
        Ok(acc as i32)
    }
}

/// Whether the bytes spell `head`.
fn slice_is_head(s: &[u8]) -> (r: bool)
    ensures
        r == (s@ == head_kw()),
{
    if s.len() != 4 {
        return false;
    }
    let r = s[0] == 104 && s[1] == 101 && s[2] == 97 && s[3] == 100;
    proof {
        if r {
            assert(s@ =~= head_kw());
        } else {
            assert(s@ != head_kw());
        }
    }
    r
}

/// Whether the bytes spell `current`.
fn slice_is_current(s: &[u8]) -> (r: bool)
    ensures
        r == (s@ == current_kw()),
{
    if s.len() != 7 {
        return false;
    }
    let r = s[0] == 99 && s[1] == 117 && s[2] == 114 && s[3] == 114 && s[4] == 101 && s[5] == 110
        && s[6] == 116;
    proof {
        if r {
            assert(s@ =~= current_kw());
        } else {
            assert(s@ != current_kw());
        }
    }
    r
}

/// With unique ids, the entry holding an id is the one `find_id` names.
pub proof fn lemma_find_id_self(cat: Seq<Migration>, k: int)
    requires
        catalog_ids_unique(cat),
        0 <= k < cat.len(),
    ensures
        find_id(cat, cat[k]@.id) == k,
{
    lemma_find_id(cat, cat[k]@.id);
    let f = find_id(cat, cat[k]@.id);
    if f == -1 {
        assert(cat[k]@.id != cat[k]@.id);
    }
}

/// Law: an apply plan is strictly ascending by id.
pub proof fn lemma_apply_plan_ascending(
    rev: Revision,
    cat: Seq<Migration>,
    current: Option<Seq<u8>>,
)
    requires
        catalog_sorted(cat),
        catalog_ids_unique(cat),
        spec_revisions_to_apply(rev, cat, current) is Ok,
    ensures
        ({
            let plan = spec_revisions_to_apply(rev, cat, current)->Ok_0;
            forall|p: int, q: int| 0 <= p < q < plan.len() ==> lex_lt(plan[p], plan[q])
        }),
{
    let plan = spec_revisions_to_apply(rev, cat, current)->Ok_0;
    let ci = spec_current_index(cat, current)->Ok_0;
    let ti = spec_resolve_index(rev, cat, ci)->Ok_0;
    match rev {
        Revision::Absolute(idv) => lemma_find_id(cat, idv@),
        _ => (),
    }
    match current {
        Some(cid) => lemma_find_id(cat, cid),
        None => (),
    }
    assert(0 <= ti < cat.len());
    let start: int = match ci {
        Some(c) => c + 1,
        None => 0,
    };
    assert(plan == ids_of(cat).subrange(start, ti + 1));
    assert forall|p: int, q: int| 0 <= p < q < plan.len() implies lex_lt(plan[p], plan[q]) by {
        assert(plan[p] == ids_of(cat)[start + p]);
        assert(plan[q] == ids_of(cat)[start + q]);
        assert(crate::migrations::mv_lt(cat[start + p]@, cat[start + q]@));
    }
}

/// Law: a revert plan is strictly descending by id.
pub proof fn lemma_revert_plan_descending(
    rev: Revision,
    cat: Seq<Migration>,
    current: Option<Seq<u8>>,
)
    requires
        catalog_sorted(cat),
        catalog_ids_unique(cat),
        spec_revisions_to_revert(rev, cat, current) is Ok,
    ensures
        ({
            let plan = spec_revisions_to_revert(rev, cat, current)->Ok_0;
            forall|p: int, q: int| 0 <= p < q < plan.len() ==> lex_lt(plan[q], plan[p])
        }),
{
    let plan = spec_revisions_to_revert(rev, cat, current)->Ok_0;
    let ci = spec_current_index(cat, current)->Ok_0->Some_0;
    let ti = spec_resolve_index(rev, cat, Some(ci))->Ok_0;
    match rev {
        Revision::Absolute(idv) => lemma_find_id(cat, idv@),
        _ => (),
    }
    lemma_find_id(cat, current->Some_0);
    assert(0 <= ci < cat.len());
    assert(0 <= ti < ci);
    let slice = ids_of(cat).subrange(ti + 1, ci + 1);
    assert(plan == slice.reverse());
    assert forall|p: int, q: int| 0 <= p < q < plan.len() implies lex_lt(plan[q], plan[p]) by {
        assert(plan[p] == slice[slice.len() - 1 - p]);
        assert(plan[q] == slice[slice.len() - 1 - q]);
        assert(slice[slice.len() - 1 - p] == ids_of(cat)[ti + slice.len() - p]);
        assert(slice[slice.len() - 1 - q] == ids_of(cat)[ti + slice.len() - q]);
        assert(crate::migrations::mv_lt(cat[ti + slice.len() - q]@, cat[ti + slice.len() - p]@));
    }
}

/// Law: resolving `head` (offset zero) when the current migration is
/// already the head of the catalog yields `AlreadyApplied`, not a
/// failing error.
pub proof fn lemma_head_already_applied(cat: Seq<Migration>, current: Seq<u8>)
    requires
        catalog_ids_unique(cat),
        cat.len() > 0,
        current == cat[cat.len() - 1]@.id,
    ensures
        spec_revisions_to_apply(
            Revision::Relative(RelativeRevision::Head(0)),
            cat,
            Some(current),
        ) == Err::<Seq<Seq<u8>>, ResolveError>(ResolveError::AlreadyApplied),
{
    lemma_find_id_self(cat, cat.len() - 1);
}

/// Law: a head offset equal to the catalog length leaves the catalog
/// and fails with `OffsetTooLarge`, whatever the current position.
pub proof fn lemma_head_offset_boundary(cat: Seq<Migration>, off: i32, current: Option<int>)
    requires
        off == cat.len(),
    ensures
        spec_resolve_index(Revision::Relative(RelativeRevision::Head(off)), cat, current)
            == Err::<int, ResolveError>(ResolveError::OffsetTooLarge),
{
}

/// Law: a head offset of one less than the catalog length succeeds and
/// targets the earliest migration.
pub proof fn lemma_head_offset_earliest(cat: Seq<Migration>, off: i32, current: Option<int>)
    requires
        cat.len() > 0,
        off == cat.len() - 1,
    ensures
        spec_resolve_index(Revision::Relative(RelativeRevision::Head(off)), cat, current)
            == Ok::<int, ResolveError>(0),
{
}

/// Law: applying to `head` from position `i`, then reverting by
/// `current:-N` for the `N` steps taken, plans exactly the applied ids
/// back in reverse order; applying to `head` again plans the same ids
/// as the first apply, ending on the same head id. (From a bootstrap
/// state there is no position to revert to, so a current migration is
/// required.)
pub proof fn lemma_apply_revert_round_trip(cat: Seq<Migration>, i: int, back: i32)
    requires
        catalog_sorted(cat),
        catalog_ids_unique(cat),
        0 <= i < cat.len() - 1,
        back == i - (cat.len() - 1),
    ensures
        ({
            let head0 = Revision::Relative(RelativeRevision::Head(0));
            let fwd = ids_of(cat).subrange(i + 1, cat.len() as int);
            &&& spec_revisions_to_apply(head0, cat, Some(cat[i]@.id)) == Ok::<
                Seq<Seq<u8>>,
                ResolveError,
            >(fwd)
            &&& spec_revisions_to_revert(
                Revision::Relative(RelativeRevision::Current(back)),
                cat,
                Some(cat[cat.len() - 1]@.id),
            ) == Ok::<Seq<Seq<u8>>, ResolveError>(fwd.reverse())
            &&& fwd[fwd.len() - 1] == cat[cat.len() - 1]@.id
        }),
{
    lemma_find_id_self(cat, i);
    lemma_find_id_self(cat, cat.len() - 1);
    let fwd = ids_of(cat).subrange(i + 1, cat.len() as int);
    assert(fwd[fwd.len() - 1] == ids_of(cat)[cat.len() - 1]);
}

impl Revision {
    /// Reads a revision expression: `head[:n]`, `current[:n]` (case
    /// insensitive, surrounding whitespace ignored), or anything else as
    /// an absolute id, kept as written. A `:` followed by anything but
    /// an `i32` is a syntax error.
    #[verifier::loop_isolation(false)]
    pub fn parse(input: &[u8]) -> (r: Result<Revision, ResolveError>)
        ensures
            split_offset(input@) matches None ==> r == Err::<Revision, _>(
                ResolveError::InvalidRevisionSyntax,
            ),
            split_offset(input@) matches Some(off) ==> {
                if split_word(input@) == head_kw() {
                    r matches Ok(Revision::Relative(RelativeRevision::Head(o))) && o == off
                } else if split_word(input@) == current_kw() {
                    r matches Ok(Revision::Relative(RelativeRevision::Current(o))) && o == off
                } else {
                    r matches Ok(Revision::Absolute(v)) && v@ == input@
                }
            },
    {
        let mut a: usize = 0;
        proof {
            assert(input@.skip(0) =~= input@);
        }
        while a < input.len() && (input[a] == 32 || (input[a] >= 9 && input[a] <= 13))
            invariant
                a <= input@.len(),
                trim_front(input@) == trim_front(input@.skip(a as int)),
            decreases input@.len() - a,
        {
            proof {
                assert(input@.skip(a as int).skip(1) =~= input@.skip(a + 1));
            }
            a = a + 1;
        }
        proof {
            assert(trim_front(input@) == input@.skip(a as int));
        }
        let mut b: usize = input.len();
        proof {
            assert(input@.subrange(a as int, input@.len() as int) =~= input@.skip(a as int));
        }
        while b > a && (input[b - 1] == 32 || (input[b - 1] >= 9 && input[b - 1] <= 13))
            invariant
                a <= b <= input@.len(),
                trim_back(input@.skip(a as int)) == trim_back(input@.subrange(a as int, b as int)),
            decreases b,
        {
            proof {
                assert(input@.subrange(a as int, b as int).drop_last() =~= input@.subrange(
                    a as int,
                    b - 1,
                ));
            }
            b = b - 1;
        }
        proof {
            assert(trim_spec(input@) == input@.subrange(a as int, b as int));
        }
        let mut low: Vec<u8> = Vec::new();
        let mut i: usize = a;
        proof {
            assert(low@ =~= lower(input@.subrange(a as int, a as int)));
        }
        while i < b
            invariant
                a <= i <= b <= input@.len(),
                low@ == lower(input@.subrange(a as int, i as int)),
            decreases b - i,
        {
            let c = input[i];
            if c >= 65 && c <= 90 {
                low.push(c + 32);
            } else {
                low.push(c);
            }
            proof {
                assert(low@ =~= lower(input@.subrange(a as int, i + 1)));
            }
            i = i + 1;
        }
        let ghost t = lower(trim_spec(input@));
        proof {
            assert(low@ == t);
        }
        let mut cpos: usize = 0;
        while cpos < low.len() && low[cpos] != 58
            invariant
                cpos <= low@.len(),
                forall|j: int| 0 <= j < cpos ==> low@[j] != 58,
            decreases low@.len() - cpos,
        {
            cpos = cpos + 1;
        }
        proof {
            crate::migrations::lemma_find_byte(t, 58);
            if cpos < low@.len() {
                assert(crate::migrations::find_byte(t, 58) == cpos as int);
            } else {
                assert(crate::migrations::find_byte(t, 58) == -1);
            }
        }
        let off: i32 = if cpos == low.len() {
            0
        } else {
            proof {
                assert(low@.subrange(cpos + 1, low@.len() as int) =~= t.skip(cpos + 1));
            }
            match parse_i32(&low[cpos + 1..low.len()]) {
                Ok(v) => v,
                Err(e) => {
                    return Err(e);
                },
            }
        };
        proof {
            if cpos < low@.len() {
                assert(low@.subrange(0, cpos as int) =~= split_word(input@));
            } else {
                assert(low@.subrange(0, cpos as int) =~= t);
            }
        }
        let word = &low[0..cpos];
        if slice_is_head(word) {
            return Ok(Revision::Relative(RelativeRevision::Head(off)));
        }
        if slice_is_current(word) {
            return Ok(Revision::Relative(RelativeRevision::Current(off)));
        }
        Ok(Revision::Absolute(vstd::slice::slice_to_vec(input)))
    }

    /// Resolves this revision to a target index in the catalog.
    #[verifier::loop_isolation(false)]
    pub(crate) fn resolve_revision_index(
        &self,
        all_migrations: &Vec<Migration>,
        current: Option<usize>,
    ) -> (r: Result<usize, ResolveError>)
        requires
            current matches Some(c) ==> c < all_migrations@.len(),
        ensures
            as_int_result(r) == spec_resolve_index(*self, all_migrations@, as_int_opt(current)),
            r matches Ok(i) ==> i < all_migrations@.len(),
    {
        match self {
            Revision::Absolute(id) => {
                let mut k: usize = 0;
                while k < all_migrations.len()
                    invariant
                        k <= all_migrations@.len(),
                        forall|j: int| 0 <= j < k ==> all_migrations@[j]@.id != id@,
                    decreases all_migrations@.len() - k,
                {
                    if bytes_eq(all_migrations[k].id.as_bytes().as_slice(), id.as_slice()) {
                        proof {
                            lemma_find_id(all_migrations@, id@);
                            assert(all_migrations@[k as int]@.id == id@);
                            assert(find_id(all_migrations@, id@) == k as int);
                        }
                        return Ok(k);
                    }
                    k = k + 1;
                }
                proof {
                    lemma_find_id(all_migrations@, id@);
                }
                Err(ResolveError::InvalidRevision)
            },
            Revision::Relative(RelativeRevision::Head(off)) => {
                if *off < 0 {
                    return Err(ResolveError::InvalidOffset);
                }
                let off_u = *off as usize;
                if off_u >= all_migrations.len() {
                    return Err(ResolveError::OffsetTooLarge);
                }
                Ok(all_migrations.len() - 1 - off_u)
            },
            Revision::Relative(RelativeRevision::Current(off)) => {
                let ci = match current {
                    Some(ci) => ci,
                    None => {
                        return Err(ResolveError::NoCurrentMigration);
                    },
                };
                if *off >= 0 {
                    let off_u = *off as usize;
                    if off_u >= all_migrations.len() - ci {
                        return Err(ResolveError::OffsetTooLarge);
                    }
                    Ok(ci + off_u)
                } else {
                    let mag = (-(*off as i64)) as usize;
                    if mag > ci {
                        return Err(ResolveError::OffsetTooLarge);
                    }
                    Ok(ci - mag)
                }
            },
        }
    }

    /// Locates the current migration in the catalog, when one is set.
    #[verifier::loop_isolation(false)]
    pub(crate) fn resolve_current_index(
        &self,
        all_migrations: &Vec<Migration>,
        current: Option<&MigrationId>,
    ) -> (r: Result<Option<usize>, ResolveError>)
        ensures
            match r {
                Ok(o) => spec_current_index(all_migrations@, opt_id_view(current)) == Ok::<
                    _,
                    ResolveError,
                >(as_int_opt(o)),
                Err(e) => spec_current_index(all_migrations@, opt_id_view(current)) == Err::<
                    Option<int>,
                    _,
                >(e),
            },
            r matches Ok(Some(ci)) ==> ci < all_migrations@.len(),
    {
        let id = match current {
            None => {
                return Ok(None);
            },
            Some(id) => id,
        };
        let mut k: usize = 0;
        while k < all_migrations.len()
            invariant
                k <= all_migrations@.len(),
                forall|j: int| 0 <= j < k ==> all_migrations@[j]@.id != id@,
            decreases all_migrations@.len() - k,
        {
            if bytes_eq(all_migrations[k].id.as_bytes().as_slice(), id.as_bytes().as_slice()) {
                proof {
                    lemma_find_id(all_migrations@, id@);
                    assert(all_migrations@[k as int]@.id == id@);
                    assert(find_id(all_migrations@, id@) == k as int);
                }
                return Ok(Some(k));
            }
            k = k + 1;
        }
        proof {
            lemma_find_id(all_migrations@, id@);
        }
        Err(ResolveError::CurrentMigrationNotFound)
    }

    /// The ordered plan of an apply: every id strictly after the current
    /// position, up to and including the target, ascending. A target at
    /// or below the current position is `AlreadyApplied`.
    pub fn revisions_to_apply(
        &self,
        all_migrations: &Vec<Migration>,
        current: Option<&MigrationId>,
    ) -> (r: Result<Vec<MigrationId>, ResolveError>)
        ensures
            as_plan_result(r) == spec_revisions_to_apply(
                *self,
                all_migrations@,
                opt_id_view(current),
            ),
    {
        let current_index = match self.resolve_current_index(all_migrations, current) {
            Ok(o) => o,
            Err(e) => {
                return Err(e);
            },
        };
        let target_index = match self.resolve_revision_index(all_migrations, current_index) {
            Ok(i) => i,
            Err(e) => {
                return Err(e);
            },
        };
        let start: usize = match current_index {
            Some(ci) => {
                if target_index <= ci {
                    return Err(ResolveError::AlreadyApplied);
                }
                ci + 1
            },
            None => 0,
        };
        let mut plan: Vec<MigrationId> = Vec::new();
        let mut k: usize = start;
        proof {
            assert(plan_views(plan@) =~= ids_of(all_migrations@).subrange(
                start as int,
                start as int,
            ));
        }
        while k <= target_index
            invariant
                start <= k <= target_index + 1,
                target_index < all_migrations@.len(),
                plan_views(plan@) == ids_of(all_migrations@).subrange(start as int, k as int),
            decreases target_index + 1 - k,
        {
            proof {
                vstd::std_specs::vec::axiom_spec_len(all_migrations);
                assert(plan_views(plan@).len() == plan@.len());
                assert(plan@.len() == k - start);
            }
            let ghost prev = plan@;
            plan.push(all_migrations[k].id);
            proof {
                let whole = ids_of(all_migrations@);
                assert(plan@ =~= prev.push(all_migrations@[k as int].id));
                assert(plan@.len() == k + 1 - start);
                assert(plan@[k - start]@ == all_migrations@[k as int]@.id);
                assert(whole[k as int] == all_migrations@[k as int]@.id);
                assert forall|i: int| 0 <= i < plan@.len() implies plan_views(plan@)[i]
                    == whole.subrange(start as int, k + 1)[i] by {
                    if i < k - start {
                        assert(plan@[i] == prev[i]);
                        assert(plan_views(prev)[i] == whole.subrange(start as int, k as int)[i]);
                    }
                }
                assert(plan_views(plan@) =~= whole.subrange(start as int, k + 1));
            }
            k = k + 1;
        }
        Ok(plan)
    }

    /// The ordered plan of a revert: every id strictly after the target,
    /// down to and including the current position, in descending order
    /// (most recently applied first). A target at or above the current
    /// position is `AlreadyReverted`; with nothing applied there is
    /// nothing to revert.
    #[verifier::loop_isolation(false)]
    pub fn revisions_to_revert(
        &self,
        all_migrations: &Vec<Migration>,
        current: Option<&MigrationId>,
    ) -> (r: Result<Vec<MigrationId>, ResolveError>)
        ensures
            as_plan_result(r) == spec_revisions_to_revert(
                *self,
                all_migrations@,
                opt_id_view(current),
            ),
    {
        if current.is_none() {
            return Err(ResolveError::NoCurrentMigration);
        }
        let current_index = match self.resolve_current_index(all_migrations, current) {
            Ok(Some(ci)) => ci,
            Ok(None) => {
                return Err(ResolveError::NoCurrentMigration);
            },
            Err(e) => {
                return Err(e);
            },
        };
        let target_index = match self.resolve_revision_index(all_migrations, Some(current_index)) {
            Ok(i) => i,
            Err(e) => {
                return Err(e);
            },
        };
        if target_index >= current_index {
            return Err(ResolveError::AlreadyReverted);
        }
        let ghost slice = ids_of(all_migrations@).subrange(
            target_index + 1,
            current_index + 1,
        );
        let mut plan: Vec<MigrationId> = Vec::new();
        let mut k: usize = current_index;
        proof {
            assert(slice.len() == current_index - target_index);
        }
        while k > target_index
            invariant
                target_index <= k <= current_index,
                current_index < all_migrations@.len(),
                slice == ids_of(all_migrations@).subrange(target_index + 1, current_index + 1),
                plan@.len() == current_index - k,
                forall|p: int| 0 <= p < plan@.len() ==> plan@[p]@ == slice[slice.len() - 1 - p],
            decreases k - target_index,
        {
            plan.push(all_migrations[k].id);
            k = k - 1;
        }
        proof {
            assert(plan_views(plan@) =~= slice.reverse());
        }
        Ok(plan)
    }

    /// Resolves this revision without a current position and hands back
    /// the id at the target index.
    pub fn resolve_revision_id(&self, all_migrations: &Vec<Migration>) -> (r: Result<
        MigrationId,
        ResolveError,
    >)
        ensures
            match spec_resolve_index(*self, all_migrations@, None) {
                Ok(i) => r matches Ok(id) && id@ == all_migrations@[i]@.id,
                Err(e) => r == Err::<MigrationId, _>(e),
            },
    {
        match self.resolve_revision_index(all_migrations, None) {
            Ok(i) => Ok(all_migrations[i].id),
            Err(e) => Err(e),
        }
    }
}

} // verus!
