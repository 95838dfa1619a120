//! Migrations and the migration catalog.
//!
//! A migration is one reversible schema-change unit, identified by a
//! 14-byte timestamp id (`YYYYMMDDHHMMSS`). Lexicographic order on the id
//! bytes equals chronological order, and the catalog relies on that for
//! every ordering decision.

use vstd::prelude::*;
use crate::bytes::{
    lex_le, bytes_eq, bytes_le, lemma_lex_le_total, lemma_lex_le_antisym, lemma_lex_le_trans,
    views_of, seq_has, seq_has_up_to,
};
use crate::errors::InvalidMigrationId;

verus! {

/// A 14-byte migration id: the UTC creation timestamp, `YYYYMMDDHHMMSS`.
#[derive(Debug, Clone, Copy)]
pub struct MigrationId([u8; 14]);

impl View for MigrationId {
    type V = Seq<u8>;

    closed spec fn view(&self) -> Seq<u8> {
        self.0@
    }
}

impl MigrationId {
    /// Wraps 14 raw bytes as an id, as they come from a filename.
    pub fn new(id: [u8; 14]) -> (r: Self)
        ensures
            r@ == id@,
    {
        MigrationId(id)
    }

    /// The id bytes.
    pub fn as_bytes(&self) -> (r: &[u8; 14])
        ensures
            r@ == self@,
    {
        &self.0
    }

    /// The id as text.
    ///
    /// Relies on std::str::from_utf8: bytes below 128 decode to the
    /// code points with the same values.
    #[verifier::external_body]
    pub fn as_str(&self) -> (r: &str)
        requires
            forall|i: int| 0 <= i < self@.len() ==> self@[i] < 128,
        ensures
            r@ == self@.map_values(|b: u8| b as char),
    {
        std::str::from_utf8(&self.0).unwrap()
    }

    /// Reads an id from a byte string, which must hold exactly 14 bytes.
    pub fn from_bytes(v: &[u8]) -> (r: Result<Self, InvalidMigrationId>)
        ensures
            v@.len() == 14 ==> (r matches Ok(id) && id@ == v@),
            v@.len() != 14 ==> r == Err::<Self, _>(InvalidMigrationId),
    {
        if v.len() != 14 {
            return Err(InvalidMigrationId);
        }
        let mut a: [u8; 14] = [0; 14];
        let mut i: usize = 0;
        while i < 14
            invariant
                i <= 14,
                v@.len() == 14,
                forall|j: int| 0 <= j < i ==> a@[j] == v@[j],
            decreases 14 - i,
        {
            a[i] = v[i];
            i = i + 1;
        }
        proof {
            assert(a@ =~= v@);
        }
        Ok(MigrationId(a))
    }
}

impl PartialEq for MigrationId {
    fn eq(&self, other: &Self) -> (r: bool) {
        bytes_eq(self.0.as_slice(), other.0.as_slice())
    }
}

impl vstd::std_specs::cmp::PartialEqSpecImpl for MigrationId {
    open spec fn obeys_eq_spec() -> bool {
        true
    }

    open spec fn eq_spec(&self, other: &MigrationId) -> bool {
        self@ == other@
    }
}

/// What a migration is, mathematically: its id bytes and its name bytes.
#[verifier::ext_equal]
pub struct MigrationView {
    pub id: Seq<u8>,
    pub name: Seq<u8>,
}

/// One reversible schema-change unit: an id and a display name, as read
/// from a script filename `<id>_<name>.sql`.
#[derive(Debug, Clone)]
pub struct Migration {
    /// The unique identifier of the migration: the creation datetime in
    /// the format `YYYYMMDDHHMMSS`.
    pub id: MigrationId,
    /// The display name of the migration, as bytes.
    pub name: Vec<u8>,
}

impl View for Migration {
    type V = MigrationView;

    open spec fn view(&self) -> MigrationView {
        MigrationView { id: self.id@, name: self.name@ }
    }
}

impl PartialEq for Migration {
    fn eq(&self, other: &Self) -> (r: bool) {
        self.id == other.id
    }
}

impl vstd::std_specs::cmp::PartialEqSpecImpl for Migration {
    open spec fn obeys_eq_spec() -> bool {
        true
    }

    open spec fn eq_spec(&self, other: &Migration) -> bool {
        self@.id == other@.id
    }
}

/// The byte `_`, which separates the id from the name in a filename.
pub const SEPARATOR_BYTE: u8 = 95;

/// The byte ` `.
pub const SPACE_BYTE: u8 = 32;

/// The bytes of the suffix `.sql`.
pub open spec fn sql_suffix() -> Seq<u8> {
    seq![46u8, 115u8, 113u8, 108u8]
}

/// Removes every occurrence of `.sql`, scanning left to right.
pub open spec fn strip_sql(s: Seq<u8>) -> Seq<u8>
    decreases s.len(),
{
    if s.len() == 0 {
        Seq::empty()
    } else if s.len() >= 4 && s.subrange(0, 4) == sql_suffix() {
        strip_sql(s.skip(4))
    } else {
        seq![s[0]] + strip_sql(s.skip(1))
    }
}

/// The index of the first occurrence of `b` in `s`, or -1.
pub open spec fn find_byte(s: Seq<u8>, b: u8) -> int
    decreases s.len(),
{
    if s.len() == 0 {
        -1
    } else if s[0] == b {
        0
    } else if find_byte(s.skip(1), b) == -1 {
        -1
    } else {
        find_byte(s.skip(1), b) + 1
    }
}

/// What `find_byte` returns: the first index holding `b`, if any.
pub proof fn lemma_find_byte(s: Seq<u8>, b: u8)
    ensures
        find_byte(s, b) == -1 ==> forall|j: int| 0 <= j < s.len() ==> s[j] != b,
        find_byte(s, b) != -1 ==> {
            let k = find_byte(s, b);
            &&& 0 <= k < s.len()
            &&& s[k] == b
            &&& forall|j: int| 0 <= j < k ==> s[j] != b
        },
    decreases s.len(),
{
    if s.len() == 0 {
    } else if s[0] == b {
    } else {
        lemma_find_byte(s.skip(1), b);
        if find_byte(s.skip(1), b) == -1 {
            assert forall|j: int| 0 <= j < s.len() implies s[j] != b by {
                if j >= 1 {
                    assert(s.skip(1)[j - 1] != b);
                }
            }
        } else {
            let k1 = find_byte(s.skip(1), b);
            assert(s[k1 + 1] == s.skip(1)[k1]);
            assert forall|j: int| 0 <= j < k1 + 1 implies s[j] != b by {
                if j >= 1 {
                    assert(s.skip(1)[j - 1] != b);
                }
            }
        }
    }
}

/// A well-formed filename stem: a 14-byte id, then `_`, then the name.
pub open spec fn stem_wf(s: Seq<u8>) -> bool {
    &&& s.len() >= 15
    &&& s[14] == SEPARATOR_BYTE
    &&& forall|j: int| 0 <= j < 14 ==> s[j] != SEPARATOR_BYTE
}

/// The migration a well-formed stem denotes.
pub open spec fn record_of_stem(s: Seq<u8>) -> MigrationView {
    MigrationView { id: s.take(14), name: s.skip(15) }
}

/// The longest name that is kept when a filename is generated.
pub const MIGRATION_MAX_NAME_FOR_FILE: usize = 40;

/// A name as it is stored: every space replaced by an underscore.
pub open spec fn underscored(name: Seq<u8>) -> Seq<u8> {
    name.map_values(|b: u8| if b == SPACE_BYTE {
        SEPARATOR_BYTE
    } else {
        b
    })
}

/// The filename of a migration: `<id>_<name>.sql`, with the name cut to
/// the generated maximum.
pub open spec fn file_name_of(m: MigrationView) -> Seq<u8> {
    let kept = if m.name.len() <= MIGRATION_MAX_NAME_FOR_FILE {
        m.name
    } else {
        m.name.take(MIGRATION_MAX_NAME_FOR_FILE as int)
    };
    m.id + seq![SEPARATOR_BYTE] + kept + sql_suffix()
}

impl Migration {
    /// A fresh migration: the id is the UTC time now; spaces in the name
    /// become underscores.
    pub fn new(name: Vec<u8>) -> (r: Self)
        ensures
            r@.name == underscored(name@),
            r@.id.len() == 14,
            forall|i: int| 0 <= i < 14 ==> 48 <= #[trigger] r@.id[i] <= 57,
    {
        let id = MigrationId::new(now_timestamp_id());
        let mut stored: Vec<u8> = Vec::new();
        let mut i: usize = 0;
        while i < name.len()
            invariant
                i <= name@.len(),
                stored@ =~= underscored(name@.take(i as int)),
            decreases name@.len() - i,
        {
            let b = name[i];
            if b == SPACE_BYTE {
                stored.push(SEPARATOR_BYTE);
            } else {
                stored.push(b);
            }
            proof {
                assert(name@.take(i + 1).drop_last() =~= name@.take(i as int));
                assert(stored@ =~= underscored(name@.take(i + 1)));
            }
            i = i + 1;
        }
        proof {
            assert(name@.take(name@.len() as int) =~= name@);
        }
        Migration { id, name: stored }
    }

    /// Reads a migration back from a filename `<id>_<name>[.sql]`: the id
    /// is everything before the first underscore, which must be 14 bytes;
    /// any `.sql` is removed from the name.
    pub fn from_filename(filename: &[u8]) -> (r: Result<Self, InvalidMigrationId>)
        requires
            exists|j: int| 0 <= j < filename@.len() && filename@[j] == SEPARATOR_BYTE,
        ensures
            find_byte(filename@, SEPARATOR_BYTE) == 14 ==> (r matches Ok(m) && m@.id
                == filename@.take(14) && m@.name == strip_sql(filename@.skip(15))),
            find_byte(filename@, SEPARATOR_BYTE) != 14 ==> r == Err::<Self, _>(
                InvalidMigrationId,
            ),
    {
        proof {
            lemma_find_byte(filename@, SEPARATOR_BYTE);
            if find_byte(filename@, SEPARATOR_BYTE) == -1 {
                assert(false);
            }
        }
        let mut pos: usize = 0;
        while pos < filename.len() && filename[pos] != SEPARATOR_BYTE
            invariant
                pos <= filename@.len(),
                forall|j: int| 0 <= j < pos ==> filename@[j] != SEPARATOR_BYTE,
            decreases filename@.len() - pos,
        {
            pos = pos + 1;
        }
        if pos != 14 {
            return Err(InvalidMigrationId);
        }
        let id = match MigrationId::from_bytes(&filename[0..14]) {
            Ok(id) => id,
            Err(e) => {
                return Err(e);
            },
        };
        let name = strip_sql_vec(&filename[15..filename.len()]);
        proof {
            assert(filename@.subrange(0, 14) =~= filename@.take(14));
            assert(filename@.subrange(15, filename@.len() as int) =~= filename@.skip(15));
        }
        Ok(Migration { id, name })
    }

    /// The display name of the migration.
    pub fn name(&self) -> (r: &Vec<u8>)
        ensures
            r@ == self@.name,
    {
        &self.name
    }

    /// The id as text.
    ///
    /// Relies on String::from_utf8_lossy: bytes below 128 come through
    /// as the code points with the same values.
    #[verifier::external_body]
    pub fn stringify_id(&self) -> (r: String)
        ensures
            (forall|i: int| 0 <= i < self@.id.len() ==> self@.id[i] < 128) ==> r@
                == self@.id.map_values(|b: u8| b as char),
    {
        String::from_utf8_lossy(&self.id.0).into_owned()
    }

    /// The filename this migration's scripts are stored under.
    pub fn generate_filename(&self) -> (r: Vec<u8>)
        ensures
            r@ == file_name_of(self@),
    {
        let mut out: Vec<u8> = Vec::new();
        let id = self.id.as_bytes();
        let mut i: usize = 0;
        while i < 14
            invariant
                i <= 14,
                id@ == self@.id,
                id@.len() == 14,
                out@ =~= self@.id.take(i as int),
            decreases 14 - i,
        {
            out.push(id[i]);
            proof {
                assert(out@ =~= self@.id.take(i + 1));
            }
            i = i + 1;
        }
        proof {
            assert(self@.id.take(14) =~= self@.id);
        }
        out.push(SEPARATOR_BYTE);
        let ghost head = self@.id + seq![SEPARATOR_BYTE];
        proof {
            assert(out@ =~= head);
        }
        let keep: usize = if self.name.len() <= MIGRATION_MAX_NAME_FOR_FILE {
            self.name.len()
        } else {
            MIGRATION_MAX_NAME_FOR_FILE
        };
        let ghost kept = if self@.name.len() <= MIGRATION_MAX_NAME_FOR_FILE {
            self@.name
        } else {
            self@.name.take(MIGRATION_MAX_NAME_FOR_FILE as int)
        };
        let mut j: usize = 0;
        while j < keep
            invariant
                j <= keep,
                keep == kept.len(),
                kept.len() <= self@.name.len(),
                forall|k: int| 0 <= k < kept.len() ==> kept[k] == self@.name[k],
                self.name@ == self@.name,
                out@ =~= head + kept.take(j as int),
            decreases keep - j,
        {
            out.push(self.name[j]);
            proof {
                assert(out@ =~= head + kept.take(j + 1));
            }
            j = j + 1;
        }
        proof {
            assert(kept.take(kept.len() as int) =~= kept);
        }
        out.push(46);
        out.push(115);
        out.push(113);
        out.push(108);
        proof {
            assert(out@ =~= file_name_of(self@));
        }
        out
    }
}

/// The UTC time now as the 14 digit bytes of `YYYYMMDDHHMMSS`.
///
/// Relies on chrono::Utc::now and its `format`: with this format string
/// the result is exactly 14 ASCII digits for any date of the current era.
#[verifier::external_body]
fn now_timestamp_id() -> (r: [u8; 14])
    ensures
        forall|i: int| 0 <= i < 14 ==> 48 <= #[trigger] r@[i] <= 57,
{
    let s = chrono::Utc::now().format("%Y%m%d%H%M%S").to_string();
    let mut out = [0u8; 14];
    out.copy_from_slice(s.as_bytes());
    out
}

/// Removes every occurrence of `.sql` from a byte string.
fn strip_sql_vec(s: &[u8]) -> (r: Vec<u8>)
    ensures
        r@ == strip_sql(s@),
{
    let mut out: Vec<u8> = Vec::new();
    let mut i: usize = 0;
    proof {
        assert(s@.skip(0) =~= s@);
        assert(Seq::<u8>::empty() + strip_sql(s@) =~= strip_sql(s@));
    }
    while i < s.len()
        invariant
            i <= s@.len(),
            out@ + strip_sql(s@.skip(i as int)) == strip_sql(s@),
        decreases s@.len() - i,
    {
        if s.len() - i >= 4 && s[i] == 46 && s[i + 1] == 115 && s[i + 2] == 113 && s[i + 3]
            == 108 {
            proof {
                assert(s@.skip(i as int).subrange(0, 4) =~= sql_suffix());
                assert(s@.skip(i as int).skip(4) =~= s@.skip(i as int + 4));
            }
            i = i + 4;
        } else {
            let ghost rest = s@.skip(i as int);
            let ghost prev = out@;
            proof {
                if rest.len() >= 4 && rest.subrange(0, 4) == sql_suffix() {
                    assert(rest.subrange(0, 4)[0] == s@[i as int]);
                    assert(rest.subrange(0, 4)[1] == s@[i as int + 1]);
                    assert(rest.subrange(0, 4)[2] == s@[i as int + 2]);
                    assert(rest.subrange(0, 4)[3] == s@[i as int + 3]);
                    assert(false);
                }
                assert(rest[0] == s@[i as int]);
                assert(rest.skip(1) =~= s@.skip(i as int + 1));
            }
            out.push(s[i]);
            proof {
                assert(out@ =~= prev + seq![s@[i as int]]);
                assert(out@ + strip_sql(s@.skip(i as int + 1)) =~= prev + (seq![s@[i as int]]
                    + strip_sql(s@.skip(i as int + 1))));
            }
            i = i + 1;
        }
    }
    proof {
        assert(s@.skip(s@.len() as int) =~= Seq::<u8>::empty());
        assert(out@ + Seq::<u8>::empty() =~= out@);
    }
    out
}

/// The catalog order: by id, then by name, both lexicographic.
pub open spec fn mv_le(a: MigrationView, b: MigrationView) -> bool {
    if a.id == b.id {
        lex_le(a.name, b.name)
    } else {
        lex_le(a.id, b.id)
    }
}

/// The catalog order, strictly.
pub open spec fn mv_lt(a: MigrationView, b: MigrationView) -> bool {
    mv_le(a, b) && !(a.id == b.id && a.name == b.name)
}

/// The catalog order is total.
pub proof fn lemma_mv_le_total(a: MigrationView, b: MigrationView)
    ensures
        mv_le(a, b) || mv_le(b, a),
{
    if a.id == b.id {
        lemma_lex_le_total(a.name, b.name);
    } else {
        lemma_lex_le_total(a.id, b.id);
    }
}

/// Migrations below each other in the catalog order are field-wise equal.
pub proof fn lemma_mv_le_antisym(a: MigrationView, b: MigrationView)
    requires
        mv_le(a, b),
        mv_le(b, a),
    ensures
        a.id == b.id,
        a.name == b.name,
{
    if a.id == b.id {
        lemma_lex_le_antisym(a.name, b.name);
    } else {
        lemma_lex_le_antisym(a.id, b.id);
    }
}

/// The catalog order is transitive.
pub proof fn lemma_mv_le_trans(a: MigrationView, b: MigrationView, c: MigrationView)
    requires
        mv_le(a, b),
        mv_le(b, c),
    ensures
        mv_le(a, c),
{
    if a.id == b.id && b.id == c.id {
        lemma_lex_le_trans(a.name, b.name, c.name);
    } else if a.id != b.id && b.id != c.id {
        lemma_lex_le_trans(a.id, b.id, c.id);
        if a.id == c.id {
            lemma_lex_le_antisym(a.id, b.id);
        }
    }
}

/// Whether `a` comes at or before `b` in the catalog order.
fn mig_le(a: &Migration, b: &Migration) -> (r: bool)
    ensures
        r == mv_le(a@, b@),
{
    if bytes_eq(a.id.as_bytes().as_slice(), b.id.as_bytes().as_slice()) {
        bytes_le(a.name.as_slice(), b.name.as_slice())
    } else {
        bytes_le(a.id.as_bytes().as_slice(), b.id.as_bytes().as_slice())
    }
}

/// Whether `a` and `b` have the same id and name.
fn mig_same(a: &Migration, b: &Migration) -> (r: bool)
    ensures
        r == (a@.id == b@.id && a@.name == b@.name),
{
    bytes_eq(a.id.as_bytes().as_slice(), b.id.as_bytes().as_slice()) && bytes_eq(
        a.name.as_slice(),
        b.name.as_slice(),
    )
}

/// Whether `a` comes strictly before `b` in the catalog order.
fn mig_lt(a: &Migration, b: &Migration) -> (r: bool)
    ensures
        r == mv_lt(a@, b@),
{
    if mig_same(a, b) {
        false
    } else {
        mig_le(a, b)
    }
}

/// Builds the migration a well-formed stem denotes.
fn migration_of_stem(stem: &[u8]) -> (r: Migration)
    requires
        stem_wf(stem@),
    ensures
        r@ == record_of_stem(stem@),
{
    let id = MigrationId::from_bytes(&stem[0..14]).unwrap();
    let name = vstd::slice::slice_to_vec(&stem[15..stem.len()]);
    proof {
        assert(stem@.subrange(0, 14) =~= stem@.take(14));
        assert(stem@.subrange(15, stem@.len() as int) =~= stem@.skip(15));
    }
    let m = Migration { id, name };
    proof {
        assert(m@ =~= record_of_stem(stem@));
    }
    m
}

/// A catalog: strictly ascending in the catalog order, hence without
/// duplicate entries.
pub open spec fn catalog_sorted(cat: Seq<Migration>) -> bool {
    forall|i: int, j: int| 0 <= i < j < cat.len() ==> mv_lt(cat[i]@, cat[j]@)
}

/// Whether a catalog holds a migration with this view.
pub open spec fn cat_has(cat: Seq<Migration>, v: MigrationView) -> bool {
    exists|k: int| 0 <= k < cat.len() && cat[k]@ == v
}

/// No two catalog entries share an id.
pub open spec fn catalog_ids_unique(cat: Seq<Migration>) -> bool {
    forall|i: int, j: int| 0 <= i < j < cat.len() ==> cat[i]@.id != cat[j]@.id
}

/// The catalog order, strictly, is transitive.
pub proof fn lemma_mv_lt_trans(a: MigrationView, b: MigrationView, c: MigrationView)
    requires
        mv_lt(a, b),
        mv_lt(b, c),
    ensures
        mv_lt(a, c),
{
    lemma_mv_le_trans(a, b, c);
    if a.id == c.id && a.name == c.name {
        lemma_mv_le_antisym(a, b);
    }
}

/// Builds the sorted, deduplicated catalog the given stems denote: one
/// migration for each distinct stem, in ascending catalog order.
fn catalog_from_stems(stems: &Vec<Vec<u8>>) -> (r: Vec<Migration>)
    requires
        forall|t: int| 0 <= t < stems@.len() ==> stem_wf(#[trigger] stems@[t]@),
    ensures
        catalog_sorted(r@),
        forall|v: MigrationView|
            cat_has(r@, v) <==> exists|k: int|
                0 <= k < stems@.len() && v == record_of_stem(#[trigger] stems@[k]@),
{
    let mut cat: Vec<Migration> = Vec::new();
    let mut i: usize = 0;
    while i < stems.len()
        invariant
            i <= stems@.len(),
            forall|t: int| 0 <= t < stems@.len() ==> stem_wf(#[trigger] stems@[t]@),
            catalog_sorted(cat@),
            forall|v: MigrationView|
                cat_has(cat@, v) <==> exists|k: int|
                    0 <= k < i && v == record_of_stem(#[trigger] stems@[k]@),
        decreases stems@.len() - i,
    {
        let m = migration_of_stem(stems[i].as_slice());
        let ghost prev = cat@;
        let mut j: usize = 0;
        while j < cat.len() && mig_lt(&cat[j], &m)
            invariant
                j <= cat@.len(),
                cat@ == prev,
                forall|k: int| 0 <= k < j ==> mv_lt(#[trigger] cat@[k]@, m@),
            decreases cat@.len() - j,
        {
            j = j + 1;
        }
        if j < cat.len() && mig_same(&cat[j], &m) {
            proof {
                assert(cat@[j as int]@ =~= m@);
                assert(cat_has(cat@, m@));
                assert forall|v: MigrationView|
                    cat_has(cat@, v) <==> exists|k: int|
                        0 <= k < i + 1 && v == record_of_stem(#[trigger] stems@[k]@) by {
                    if cat_has(cat@, v) {
                        let k = choose|k: int| 0 <= k < i && v == record_of_stem(#[trigger] stems@[k]@);
                    }
                    if exists|k: int| 0 <= k < i + 1 && v == record_of_stem(#[trigger] stems@[k]@) {
                        let k = choose|k: int|
                            0 <= k < i + 1 && v == record_of_stem(#[trigger] stems@[k]@);
                        if k == i {
                            assert(v == m@);
                        } else {
                            assert(exists|k2: int|
                                0 <= k2 < i && v == record_of_stem(#[trigger] stems@[k2]@));
                        }
                    }
                }
            }
        } else {
            proof {
                if j < cat@.len() {
                    lemma_mv_le_total(m@, cat@[j as int]@);
                    assert(mv_lt(m@, cat@[j as int]@));
                }
            }
            cat.insert(j, m);
            proof {
                assert(cat@ =~= prev.subrange(0, j as int).push(m) + prev.subrange(
                    j as int,
                    prev.len() as int,
                ));
                assert(forall|k: int| 0 <= k < j ==> cat@[k] == prev[k]);
                assert(forall|k: int| j < k < cat@.len() ==> cat@[k] == prev[k - 1]);
                assert(cat@[j as int] == m);
                assert forall|p: int, q: int| 0 <= p < q < cat@.len() implies mv_lt(
                    cat@[p]@,
                    cat@[q]@,
                ) by {
                    if q < j {
                    } else if p < j && q == j {
                        assert(mv_lt(prev[p]@, m@));
                    } else if p < j && q > j {
                        assert(cat@[q] == prev[q - 1]);
                        if q - 1 == p {
                            assert(false);
                        }
                        assert(mv_lt(prev[p]@, prev[q - 1]@));
                    } else if p == j && q > j {
                        assert(cat@[q] == prev[q - 1]);
                        if q - 1 == j {
                            assert(mv_lt(m@, prev[j as int]@));
                        } else {
                            assert(mv_lt(cat@[j as int]@, prev[j as int]@));
                            assert(mv_lt(prev[j as int]@, prev[q - 1]@));
                            lemma_mv_lt_trans(m@, prev[j as int]@, prev[q - 1]@);
                        }
                    } else {
                        assert(p > j && q > j);
                        assert(mv_lt(prev[p - 1]@, prev[q - 1]@));
                    }
                }
                assert forall|v: MigrationView|
                    cat_has(cat@, v) <==> exists|k: int|
                        0 <= k < i + 1 && v == record_of_stem(#[trigger] stems@[k]@) by {
                    if cat_has(cat@, v) {
                        let k = choose|k: int| 0 <= k < cat@.len() && cat@[k]@ == v;
                        if k < j {
                            assert(prev[k]@ == v);
                            assert(cat_has(prev, v));
                        } else if k == j {
                            assert(v == m@);
                            assert(v == record_of_stem(stems@[i as int]@));
                        } else {
                            assert(prev[k - 1]@ == v);
                            assert(cat_has(prev, v));
                        }
                        if cat_has(prev, v) {
                            let k2 = choose|k2: int|
                                0 <= k2 < i && v == record_of_stem(#[trigger] stems@[k2]@);
                        }
                    }
                    if exists|k: int| 0 <= k < i + 1 && v == record_of_stem(#[trigger] stems@[k]@) {
                        let k = choose|k: int|
                            0 <= k < i + 1 && v == record_of_stem(#[trigger] stems@[k]@);
                        if k == i {
                            assert(cat@[j as int]@ == v);
                        } else {
                            assert(exists|k2: int|
                                0 <= k2 < i && v == record_of_stem(#[trigger] stems@[k2]@));
                            assert(cat_has(prev, v));
                            let t = choose|t: int| 0 <= t < prev.len() && prev[t]@ == v;
                            if t < j {
                                assert(cat@[t]@ == v);
                            } else {
                                assert(cat@[t + 1]@ == v);
                            }
                        }
                        assert(cat_has(cat@, v));
                    }
                }
            }
        }
        i = i + 1;
    }
    cat
}

/// The stems of a list of filenames: each with every `.sql` removed.
pub open spec fn stems_of_spec(files: Seq<Seq<u8>>) -> Seq<Seq<u8>> {
    files.map_values(|f: Seq<u8>| strip_sql(f))
}

/// Whether the two script stores hold the same set of stems.
pub open spec fn stores_consistent(up: Seq<Seq<u8>>, down: Seq<Seq<u8>>) -> bool {
    forall|x: Seq<u8>| seq_has(stems_of_spec(up), x) == seq_has(stems_of_spec(down), x)
}

/// Strips every filename in a list down to its stem.
fn stems_of(files: &Vec<Vec<u8>>) -> (r: Vec<Vec<u8>>)
    ensures
        views_of(r@) == stems_of_spec(views_of(files@)),
{
    let mut out: Vec<Vec<u8>> = Vec::new();
    let mut i: usize = 0;
    while i < files.len()
        invariant
            i <= files@.len(),
            out@.len() == i,
            forall|k: int| 0 <= k < i ==> out@[k]@ == strip_sql(#[trigger] files@[k]@),
        decreases files@.len() - i,
    {
        out.push(strip_sql_vec(files[i].as_slice()));
        i = i + 1;
    }
    proof {
        assert(views_of(out@) =~= stems_of_spec(views_of(files@)));
    }
    out
}

/// Whether the list holds a vector with these bytes.
fn contains_stem(list: &Vec<Vec<u8>>, x: &[u8]) -> (r: bool)
    ensures
        r == seq_has(views_of(list@), x@),
{
    let mut i: usize = 0;
    while i < list.len()
        invariant
            i <= list@.len(),
            forall|k: int| 0 <= k < i ==> #[trigger] list@[k]@ != x@,
        decreases list@.len() - i,
    {
        if bytes_eq(list[i].as_slice(), x) {
            assert(views_of(list@)[i as int] == x@);
            return true;
        }
        i = i + 1;
    }
    proof {
        assert forall|k: int| 0 <= k < views_of(list@).len() implies views_of(list@)[k] != x@ by {
            assert(list@[k]@ != x@);
        }
    }
    false
}

/// The stems that occur in `a` but not in `b`, each once, in the order
/// of their first occurrence.
fn stems_only_in(a: &Vec<Vec<u8>>, b: &Vec<Vec<u8>>) -> (r: Vec<Vec<u8>>)
    ensures
        forall|x: Seq<u8>|
            seq_has(views_of(r@), x) == (seq_has(views_of(a@), x) && !seq_has(views_of(b@), x)),
        forall|p: int, q: int| 0 <= p < q < r@.len() ==> r@[p]@ != r@[q]@,
{
    let mut out: Vec<Vec<u8>> = Vec::new();
    let mut i: usize = 0;
    while i < a.len()
        invariant
            i <= a@.len(),
            forall|x: Seq<u8>|
                seq_has(views_of(out@), x) == (seq_has_up_to(views_of(a@), i as int, x)
                    && !seq_has(views_of(b@), x)),
            forall|p: int, q: int| 0 <= p < q < out@.len() ==> out@[p]@ != out@[q]@,
        decreases a@.len() - i,
    {
        let ghost old_out = out@;
        if !contains_stem(b, a[i].as_slice()) && !contains_stem(&out, a[i].as_slice()) {
            out.push(a[i].clone());
            proof {
                assert(out@[out@.len() - 1]@ == a@[i as int]@);
                assert forall|x: Seq<u8>|
                    seq_has(views_of(out@), x) == (seq_has_up_to(views_of(a@), i + 1, x)
                        && !seq_has(views_of(b@), x)) by {
                    if seq_has(views_of(out@), x) {
                        let k = choose|k: int|
                            0 <= k < views_of(out@).len() && views_of(out@)[k] == x;
                        if k < old_out.len() {
                            assert(views_of(old_out)[k] == x);
                            assert(seq_has(views_of(old_out), x));
                        } else {
                            assert(x == a@[i as int]@);
                            assert(views_of(a@)[i as int] == x);
                        }
                    }
                    if seq_has_up_to(views_of(a@), i + 1, x) && !seq_has(views_of(b@), x) {
                        let k = choose|k: int|
                            0 <= k < i + 1 && k < views_of(a@).len() && views_of(a@)[k] == x;
                        if k < i {
                            assert(seq_has_up_to(views_of(a@), i as int, x));
                            assert(seq_has(views_of(old_out), x));
                            let t = choose|t: int|
                                0 <= t < views_of(old_out).len() && views_of(old_out)[t] == x;
                            assert(views_of(out@)[t] == x);
                        } else {
                            assert(views_of(out@)[out@.len() - 1] == x);
                        }
                        assert(seq_has(views_of(out@), x));
                    }
                }
                assert forall|p: int, q: int| 0 <= p < q < out@.len() implies out@[p]@
                    != out@[q]@ by {
                    if q == out@.len() - 1 {
                        assert(!seq_has(views_of(old_out), a@[i as int]@));
                        assert(views_of(old_out)[p] == out@[p]@);
                    }
                }
            }
        } else {
            proof {
                assert forall|x: Seq<u8>|
                    seq_has(views_of(out@), x) == (seq_has_up_to(views_of(a@), i + 1, x)
                        && !seq_has(views_of(b@), x)) by {
                    if seq_has_up_to(views_of(a@), i + 1, x) && !seq_has(views_of(b@), x) {
                        let k = choose|k: int|
                            0 <= k < i + 1 && k < views_of(a@).len() && views_of(a@)[k] == x;
                        if k == i {
                            assert(x == a@[i as int]@);
                            assert(seq_has(views_of(out@), x));
                        } else {
                            assert(seq_has_up_to(views_of(a@), i as int, x));
                        }
                    }
                    if seq_has(views_of(out@), x) {
                        assert(seq_has_up_to(views_of(a@), i as int, x));
                        let k = choose|k: int|
                            0 <= k < i && k < views_of(a@).len() && views_of(a@)[k] == x;
                    }
                }
            }
        }
        i = i + 1;
    }
    proof {
        assert forall|x: Seq<u8>|
            seq_has(views_of(out@), x) == (seq_has(views_of(a@), x) && !seq_has(
                views_of(b@),
                x,
            )) by {
            assert(seq_has_up_to(views_of(a@), a@.len() as int, x) == seq_has(views_of(a@), x));
        }
    }
    out
}

/// The two script stores disagree: some migrations lack a reverse
/// script, or lack a forward script. Carries every offending stem on
/// both sides, not a sample.
#[derive(Debug)]
pub struct InconsistentMigrationsError {
    /// Stems with a forward script but no reverse script.
    pub missing_down: Vec<Vec<u8>>,
    /// Stems with a reverse script but no forward script.
    pub missing_up: Vec<Vec<u8>>,
}

/// Law: a stem present among the forward scripts but absent from the
/// reverse scripts makes the two stores inconsistent, so loading the
/// catalog fails, and the failure names that stem in its missing-down
/// set (and symmetrically for the missing-up set).
pub proof fn lemma_missing_down_named(up: Seq<Seq<u8>>, down: Seq<Seq<u8>>, x: Seq<u8>)
    requires
        seq_has(stems_of_spec(up), x),
        !seq_has(stems_of_spec(down), x),
    ensures
        !stores_consistent(up, down),
{
}

/// Loads the catalog from the filenames found in the forward-script
/// store and the reverse-script store.
///
/// The two stores must hold the same set of stems; otherwise the whole
/// symmetric difference is reported. On success the catalog holds one
/// migration per distinct stem of the forward store, in ascending order.
pub fn get_migration_history(up_files: &Vec<Vec<u8>>, down_files: &Vec<Vec<u8>>) -> (r: Result<
    Vec<Migration>,
    InconsistentMigrationsError,
>)
    requires
        stores_consistent(views_of(up_files@), views_of(down_files@)) ==> forall|t: int|
            0 <= t < up_files@.len() ==> stem_wf(strip_sql(#[trigger] up_files@[t]@)),
    ensures
        r matches Ok(cat) <==> stores_consistent(views_of(up_files@), views_of(down_files@)),
        r matches Ok(cat) ==> {
            &&& catalog_sorted(cat@)
            &&& forall|v: MigrationView|
                cat_has(cat@, v) <==> exists|k: int|
                    0 <= k < up_files@.len() && v == record_of_stem(strip_sql(
                        #[trigger] up_files@[k]@,
                    ))
        },
        r matches Err(e) ==> {
            &&& forall|x: Seq<u8>|
                seq_has(views_of(e.missing_down@), x) == (seq_has(
                    stems_of_spec(views_of(up_files@)),
                    x,
                ) && !seq_has(stems_of_spec(views_of(down_files@)), x))
            &&& forall|x: Seq<u8>|
                seq_has(views_of(e.missing_up@), x) == (seq_has(
                    stems_of_spec(views_of(down_files@)),
                    x,
                ) && !seq_has(stems_of_spec(views_of(up_files@)), x))
            &&& forall|p: int, q: int|
                0 <= p < q < e.missing_down@.len() ==> e.missing_down@[p]@ != e.missing_down@[q]@
            &&& forall|p: int, q: int|
                0 <= p < q < e.missing_up@.len() ==> e.missing_up@[p]@ != e.missing_up@[q]@
        },
{
    let ghost up_views = views_of(up_files@);
    let ghost down_views = views_of(down_files@);
    let up_stems = stems_of(up_files);
    let down_stems = stems_of(down_files);
    let only_up = stems_only_in(&up_stems, &down_stems);
    let only_down = stems_only_in(&down_stems, &up_stems);
    if only_up.len() > 0 || only_down.len() > 0 {
        proof {
            if only_up@.len() > 0 {
                assert(views_of(only_up@)[0] == only_up@[0]@);
                assert(seq_has(views_of(only_up@), only_up@[0]@));
            } else {
                assert(views_of(only_down@)[0] == only_down@[0]@);
                assert(seq_has(views_of(only_down@), only_down@[0]@));
            }
        }
        return Err(InconsistentMigrationsError { missing_down: only_up, missing_up: only_down });
    }
    proof {
        assert forall|x: Seq<u8>|
            seq_has(stems_of_spec(up_views), x) == seq_has(stems_of_spec(down_views), x) by {
            assert(!seq_has(views_of(only_up@), x));
            assert(!seq_has(views_of(only_down@), x));
        }
        assert(up_stems@.len() == views_of(up_stems@).len());
        assert(up_stems@.len() == up_files@.len());
        assert forall|t: int| 0 <= t < up_stems@.len() implies stem_wf(
            #[trigger] up_stems@[t]@,
        ) by {
            assert(views_of(up_stems@)[t] == stems_of_spec(views_of(up_files@))[t]);
            assert(up_stems@[t]@ == strip_sql(up_files@[t]@));
        }
    }
    let cat = catalog_from_stems(&up_stems);
    proof {
        assert forall|v: MigrationView|
            cat_has(cat@, v) <==> exists|k: int|
                0 <= k < up_files@.len() && v == record_of_stem(strip_sql(
                    #[trigger] up_files@[k]@,
                )) by {
            if cat_has(cat@, v) {
                let k = choose|k: int| 0 <= k < up_stems@.len() && v == record_of_stem(
                    #[trigger] up_stems@[k]@,
                );
                assert(views_of(up_stems@)[k] == stems_of_spec(views_of(up_files@))[k]);
                assert(up_stems@[k]@ == strip_sql(up_files@[k]@));
            }
            if exists|k: int|
                0 <= k < up_files@.len() && v == record_of_stem(strip_sql(
                    #[trigger] up_files@[k]@,
                )) {
                let k = choose|k: int|
                    0 <= k < up_files@.len() && v == record_of_stem(strip_sql(
                        #[trigger] up_files@[k]@,
                    ));
                assert(views_of(up_stems@)[k] == stems_of_spec(views_of(up_files@))[k]);
                assert(up_stems@[k]@ == strip_sql(up_files@[k]@));
                assert(v == record_of_stem(up_stems@[k]@));
            }
        }
    }
    Ok(cat)
}

} // verus!
