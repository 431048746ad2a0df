//! Names of physical tables: `<basename>_<RR>[_base|_compacted][_tmp<key>]`.
//!
//! [`Table::to_table_name`] writes a name, [`Table::parse`] reads one, and
//! [`lemma_name_round_trip`] states on which tables reading undoes writing.

use vstd::prelude::*;
use crate::text::{
    all_word_chars, digit_value, has_prefix_at, is_digit, is_letter, is_word_char, push_char,
    push_two_digits,
    string_of, to_chars, two_digits,
};

verus! {

/// What distinguishes the tables of one family from each other.
#[derive(Debug, PartialEq, Eq)]
pub struct TableSpec {
    pub h3_resolution: u8,
    pub is_compacted: bool,
    /// Temporary tables are only used while new data is ingested.
    pub temporary_key: Option<String>,
    /// Whether the name carries `_base` or `_compacted` behind the resolution.
    pub has_base_suffix: bool,
}

/// Mathematical value of a [`TableSpec`].
pub struct TableSpecView {
    pub h3_resolution: u8,
    pub is_compacted: bool,
    pub temporary_key: Option<Seq<char>>,
    pub has_base_suffix: bool,
}

impl View for TableSpec {
    type V = TableSpecView;

    open spec fn view(&self) -> TableSpecView {
        TableSpecView {
            h3_resolution: self.h3_resolution,
            is_compacted: self.is_compacted,
            temporary_key: match self.temporary_key {
                Some(k) => Some(k@),
                None => None,
            },
            has_base_suffix: self.has_base_suffix,
        }
    }
}

/// A physical table: the family's basename and the table's own properties.
#[derive(Debug, PartialEq, Eq)]
pub struct Table {
    pub basename: String,
    pub spec: TableSpec,
}

/// Mathematical value of a [`Table`].
pub struct TableView {
    pub basename: Seq<char>,
    pub spec: TableSpecView,
}

impl View for Table {
    type V = TableView;

    open spec fn view(&self) -> TableView {
        TableView { basename: self.basename@, spec: self.spec@ }
    }
}

/// View of an optional table.
pub open spec fn opt_table_view(t: Option<Table>) -> Option<TableView> {
    match t {
        Some(t) => Some(t@),
        None => None,
    }
}

// ---------------------------------------------------------------------------
// Writing a name

/// The part of a name that tells base tables from compacted ones.
pub open spec fn suffix_text(has_base_suffix: bool, is_compacted: bool) -> Seq<char> {
    if has_base_suffix {
        if is_compacted {
            "_compacted"@
        } else {
            "_base"@
        }
    } else {
        Seq::empty()
    }
}

/// The part of a name that marks a temporary table.
pub open spec fn temporary_text(key: Option<Seq<char>>) -> Seq<char> {
    match key {
        Some(k) => "_tmp"@ + k,
        None => Seq::empty(),
    }
}

/// What follows the basename in the name of a table with properties `s`.
pub open spec fn tail_text(s: TableSpecView) -> Seq<char> {
    seq!['_'] + two_digits(s.h3_resolution as nat) + suffix_text(s.has_base_suffix, s.is_compacted)
        + temporary_text(s.temporary_key)
}

/// The name of table `t`.
pub open spec fn table_name(t: TableView) -> Seq<char> {
    t.basename + tail_text(t.spec)
}

// ---------------------------------------------------------------------------
// Reading a name

/// A basename is a letter followed by at least one word character.
pub open spec fn is_basename(b: Seq<char>) -> bool {
    &&& b.len() >= 2
    &&& is_letter(b[0])
    &&& all_word_chars(b)
}

/// A temporary key is a non-empty run of word characters.
pub open spec fn is_key(k: Seq<char>) -> bool {
    k.len() >= 1 && all_word_chars(k)
}

/// Reads `_tmp<key>` or nothing: the key, if `t` is one of the two.
pub open spec fn read_temporary(t: Seq<char>) -> Option<Option<Seq<char>>> {
    if t.len() == 0 {
        Some(None)
    } else if "_tmp"@.is_prefix_of(t) && is_key(t.skip("_tmp"@.len() as int)) {
        Some(Some(t.skip("_tmp"@.len() as int)))
    } else {
        None
    }
}

/// Reads what follows a basename: `_`, two digits, an optional `_base` or
/// `_compacted`, an optional `_tmp<key>`, and nothing else.
pub open spec fn read_tail(t: Seq<char>) -> Option<TableSpecView> {
    if t.len() >= 3 && t[0] == '_' && is_digit(t[1]) && is_digit(t[2]) {
        let resolution = (10 * digit_value(t[1]) + digit_value(t[2])) as u8;
        let rest = t.skip(3);
        if "_compacted"@.is_prefix_of(rest) {
            match read_temporary(rest.skip("_compacted"@.len() as int)) {
                Some(key) => Some(
                    TableSpecView {
                        h3_resolution: resolution,
                        is_compacted: true,
                        temporary_key: key,
                        has_base_suffix: true,
                    },
                ),
                None => None,
            }
        } else if "_base"@.is_prefix_of(rest) {
            match read_temporary(rest.skip("_base"@.len() as int)) {
                Some(key) => Some(
                    TableSpecView {
                        h3_resolution: resolution,
                        is_compacted: false,
                        temporary_key: key,
                        has_base_suffix: true,
                    },
                ),
                None => None,
            }
        } else {
            match read_temporary(rest) {
                Some(key) => Some(
                    TableSpecView {
                        h3_resolution: resolution,
                        is_compacted: false,
                        temporary_key: key,
                        has_base_suffix: false,
                    },
                ),
                None => None,
            }
        }
    } else {
        None
    }
}

/// Whether `name` is a basename of `p` characters followed by a tail.
pub open spec fn splits_at(name: Seq<char>, p: int) -> bool {
    &&& 0 <= p <= name.len()
    &&& is_basename(name.take(p))
    &&& read_tail(name.skip(p)) is Some
}

/// The table that `name` denotes when its basename has `p` characters.
pub open spec fn table_at(name: Seq<char>, p: int) -> TableView {
    TableView { basename: name.take(p), spec: read_tail(name.skip(p))->0 }
}

/// Whether `r` is what `name` reads as: the split with the longest basename,
/// or nothing where the name has no split at all.
pub open spec fn is_reading_of(name: Seq<char>, r: Option<TableView>) -> bool {
    match r {
        Some(t) => exists|p: int|
            {
                &&& #[trigger] splits_at(name, p)
                &&& t == table_at(name, p)
                &&& forall|q: int| #[trigger] splits_at(name, q) ==> q <= p
            },
        None => forall|p: int| !#[trigger] splits_at(name, p),
    }
}

/// What `name` reads as: the table of the split with the longest basename.
#[verifier::opaque]
pub open spec fn reading(name: Seq<char>) -> Option<TableView> {
    if exists|p: int| splits_at(name, p) {
        Some(
            table_at(
                name,
                choose|p: int|
                    #[trigger] splits_at(name, p) && forall|q: int|
                        #[trigger] splits_at(name, q) ==> q <= p,
            ),
        )
    } else {
        None
    }
}

/// A name reads as one thing only.
pub proof fn lemma_reading_unique(name: Seq<char>, r: Option<TableView>)
    requires
        is_reading_of(name, r),
    ensures
        reading(name) == r,
{
    reveal(reading);
    match r {
        Some(t) => {
            let p = choose|p: int|
                {
                    &&& #[trigger] splits_at(name, p)
                    &&& t == table_at(name, p)
                    &&& forall|q: int| #[trigger] splits_at(name, q) ==> q <= p
                };
            let c = choose|p: int|
                #[trigger] splits_at(name, p) && forall|q: int|
                    #[trigger] splits_at(name, q) ==> q <= p;
            assert(splits_at(name, c));
            assert(c <= p && p <= c);
        },
        None => {},
    }
}

/// What can be read behind a basename has a resolution of two digits, a
/// key of word characters, and is compacted only where that is written out.
pub proof fn lemma_read_tail_is_spec(t: Seq<char>)
    requires
        read_tail(t) is Some,
    ensures
        read_tail(t)->0.h3_resolution <= 99,
        read_tail(t)->0.is_compacted ==> read_tail(t)->0.has_base_suffix,
        read_tail(t)->0.temporary_key is Some ==> is_key(read_tail(t)->0.temporary_key->0),
{
    assert(0 <= digit_value(t[1]) <= 9);
    assert(0 <= digit_value(t[2]) <= 9);
}

/// The table of a split follows the grammar.
proof fn lemma_split_is_table(name: Seq<char>, p: int)
    requires
        splits_at(name, p),
    ensures
        is_basename(table_at(name, p).basename),
        table_at(name, p).spec.h3_resolution <= 99,
        table_at(name, p).spec.is_compacted ==> table_at(name, p).spec.has_base_suffix,
        table_at(name, p).spec.temporary_key is Some ==> is_key(
            table_at(name, p).spec.temporary_key->0,
        ),
{
    lemma_read_tail_is_spec(name.skip(p));
}

/// What a name reads as follows the grammar: a basename, a resolution of
/// two digits, a key of word characters, and `_compacted` only written out.
pub proof fn lemma_reading_is_table(name: Seq<char>)
    ensures
        reading(name) is Some ==> ({
            let t = reading(name)->0;
            &&& is_basename(t.basename)
            &&& t.spec.h3_resolution <= 99
            &&& t.spec.is_compacted ==> t.spec.has_base_suffix
            &&& t.spec.temporary_key is Some ==> is_key(t.spec.temporary_key->0)
        }),
{
    reveal(reading);
    if exists|p: int| splits_at(name, p) {
        let w = choose|p: int| splits_at(name, p);
        lemma_longest_split(name, w);
        let p = choose|p: int|
            #[trigger] splits_at(name, p) && forall|q: int| #[trigger] splits_at(name, q) ==> q <= p;
        lemma_split_is_table(name, p);
    }
}

/// Where a name has a split, it has one with the longest basename.
proof fn lemma_longest_split(name: Seq<char>, w: int)
    requires
        splits_at(name, w),
    ensures
        exists|p: int| #[trigger]
            splits_at(name, p) && forall|q: int| #[trigger] splits_at(name, q) ==> q <= p,
    decreases name.len() - w,
{
    if exists|q: int| splits_at(name, q) && q > w {
        let q = choose|q: int| splits_at(name, q) && q > w;
        lemma_longest_split(name, q);
    } else {
        assert(splits_at(name, w) && forall|q: int| #[trigger] splits_at(name, q) ==> q <= w);
    }
}

pub(crate) fn is_letter_char(c: char) -> (b: bool)
    ensures
        b == is_letter(c),
{
    ('a' <= c && c <= 'z') || ('A' <= c && c <= 'Z')
}

pub(crate) fn is_digit_char(c: char) -> (b: bool)
    ensures
        b == is_digit(c),
{
    '0' <= c && c <= '9'
}

pub(crate) fn is_word(c: char) -> (b: bool)
    ensures
        b == is_word_char(c),
{
    is_letter_char(c) || is_digit_char(c) || c == '_'
}

/// The value of a decimal digit.
pub(crate) fn digit_of(c: char) -> (d: u8)
    requires
        is_digit(c),
    ensures
        d == digit_value(c),
        d <= 9,
{
    (c as u32 - '0' as u32) as u8
}

/// The first position from `from` on that holds no word character, or the length.
pub(crate) fn word_run_end(v: &Vec<char>, from: usize) -> (end: usize)
    requires
        from <= v.len(),
    ensures
        from <= end <= v.len(),
        forall|i: int| from <= i < end ==> is_word_char(#[trigger] v@[i]),
        end < v.len() ==> !is_word_char(v@[end as int]),
{
    let mut i: usize = from;
    while i < v.len() && is_word(v[i])
        invariant
            from <= i <= v.len(),
            forall|j: int| from <= j < i ==> is_word_char(#[trigger] v@[j]),
        decreases v.len() - i,
    {
        i += 1;
    }
    i
}

/// Reads `_tmp<key>` or nothing from position `at` to the end.
fn read_temporary_at(v: &Vec<char>, at: usize) -> (r: Option<Option<String>>)
    requires
        at <= v.len(),
    ensures
        match r {
            Some(Some(k)) => read_temporary(v@.skip(at as int)) == Some(Some(k@)),
            Some(None) => read_temporary(v@.skip(at as int)) == Some(None::<Seq<char>>),
            None => read_temporary(v@.skip(at as int)) is None,
        },
{
    let ghost t = v@.skip(at as int);
    if at == v.len() {
        return Some(None);
    }
    let marker = to_chars("_tmp");
    if !has_prefix_at(v, at, &marker) {
        return None;
    }
    let start = at + marker.len();
    assert(t.skip(marker@.len() as int) =~= v@.skip(start as int));
    if start == v.len() {
        return None;
    }
    let end = word_run_end(v, start);
    if end < v.len() {
        assert(v@.skip(start as int)[end - start] == v@[end as int]);
        return None;
    }
    let key = string_of(v, start, v.len());
    assert(v@.subrange(start as int, v.len() as int) =~= v@.skip(start as int));
    assert forall|i: int| 0 <= i < v@.skip(start as int).len() implies is_word_char(
        #[trigger] v@.skip(start as int)[i],
    ) by {
        assert(v@.skip(start as int)[i] == v@[start + i]);
    }
    Some(Some(key))
}

/// Reads what follows a basename, from position `at` to the end.
fn read_tail_at(v: &Vec<char>, at: usize) -> (r: Option<TableSpec>)
    requires
        at <= v.len(),
    ensures
        match r {
            Some(s) => read_tail(v@.skip(at as int)) == Some(s@),
            None => read_tail(v@.skip(at as int)) is None,
        },
{
    let ghost t = v@.skip(at as int);
    if v.len() - at < 3 {
        return None;
    }
    assert(t[0] == v@[at as int] && t[1] == v@[at + 1] && t[2] == v@[at + 2]);
    if v[at] != '_' || !is_digit_char(v[at + 1]) || !is_digit_char(v[at + 2]) {
        return None;
    }
    let resolution: u8 = 10 * digit_of(v[at + 1]) + digit_of(v[at + 2]);
    let rest = at + 3;
    assert(t.skip(3) =~= v@.skip(rest as int));
    let compacted = to_chars("_compacted");
    let base = to_chars("_base");
    let (has_base_suffix, is_compacted, after) = if has_prefix_at(v, rest, &compacted) {
        (true, true, rest + compacted.len())
    } else if has_prefix_at(v, rest, &base) {
        (true, false, rest + base.len())
    } else {
        (false, false, rest)
    };
    assert(v@.skip(rest as int).skip(after - rest) =~= v@.skip(after as int));
    match read_temporary_at(v, after) {
        Some(temporary_key) => Some(
            TableSpec { h3_resolution: resolution, is_compacted, temporary_key, has_base_suffix },
        ),
        None => None,
    }
}

impl TableSpec {
    pub fn is_temporary(&self) -> (b: bool)
        ensures
            b == (self@.temporary_key is Some),
    {
        self.temporary_key.is_some()
    }
}

impl Clone for TableSpec {
    fn clone(&self) -> (s: Self)
        ensures
            s == *self,
    {
        TableSpec {
            h3_resolution: self.h3_resolution,
            is_compacted: self.is_compacted,
            temporary_key: match &self.temporary_key {
                Some(k) => Some(k.clone()),
                None => None,
            },
            has_base_suffix: self.has_base_suffix,
        }
    }
}

impl Clone for Table {
    fn clone(&self) -> (t: Self)
        ensures
            t == *self,
    {
        Table { basename: self.basename.clone(), spec: self.spec.clone() }
    }
}

impl Table {
    /// Reads a table name. Returns `None` where the text is no table name:
    /// it may be the name of an unrelated table.
    pub fn parse(full_table_name: &str) -> (r: Option<Table>)
        ensures
            opt_table_view(r) == reading(full_table_name@),
            is_reading_of(full_table_name@, opt_table_view(r)),
    {
        let r = Self::parse_longest(full_table_name);
        proof {
            lemma_reading_unique(full_table_name@, opt_table_view(r));
        }
        r
    }

    fn parse_longest(full_table_name: &str) -> (r: Option<Table>)
        ensures
            is_reading_of(full_table_name@, opt_table_view(r)),
    {
        let v = to_chars(full_table_name);
        let ghost name = v@;
        let n = v.len();
        if n < 5 || !is_letter_char(v[0]) {
            assert forall|p: int| !#[trigger] splits_at(name, p) by {
                if splits_at(name, p) {
                    assert(name.take(p)[0] == name[0]);
                    assert(name.skip(p).len() >= 3);
                }
            }
            return None;
        }
        let run = word_run_end(&v, 0);
        // No basename reaches beyond the leading run of word characters.
        let mut p: usize = if run < n - 3 {
            run
        } else {
            n - 3
        };
        proof {
            assert forall|q: int| p < q implies !#[trigger] splits_at(name, q) by {
                if splits_at(name, q) {
                    assert(name.skip(q).len() >= 3);
                    if run < q {
                        assert(name.take(q)[run as int] == name[run as int]);
                    }
                }
            }
        }
        while p >= 2
            invariant
                name == v@,
                name == full_table_name@,
                n == v.len(),
                n >= 5,
                p <= run <= n,
                p <= n - 3,
                is_letter(name[0]),
                forall|i: int| 0 <= i < run ==> is_word_char(#[trigger] name[i]),
                forall|q: int| p < q ==> !#[trigger] splits_at(name, q),
            decreases p,
        {
            match read_tail_at(&v, p) {
                Some(spec) => {
                    let basename = string_of(&v, 0, p);
                    proof {
                        assert(name.subrange(0, p as int) =~= name.take(p as int));
                        assert forall|i: int| 0 <= i < name.take(p as int).len() implies is_word_char(
                            #[trigger] name.take(p as int)[i],
                        ) by {
                            assert(name.take(p as int)[i] == name[i]);
                        }
                        assert(splits_at(name, p as int));
                    }
                    return Some(Table { basename, spec });
                },
                None => {},
            }
            p -= 1;
        }
        assert forall|q: int| !#[trigger] splits_at(name, q) by {}
        None
    }

    /// Writes the table's name.
    pub fn to_table_name(&self) -> (name: String)
        ensures
            name@ == table_name(self@),
    {
        let mut name = String::new();
        name.append(self.basename.as_str());
        push_char(&mut name, '_');
        push_two_digits(&mut name, self.spec.h3_resolution);
        if self.spec.has_base_suffix {
            if self.spec.is_compacted {
                name.append("_compacted");
            } else {
                name.append("_base");
            }
        }
        match &self.spec.temporary_key {
            Some(key) => {
                name.append("_tmp");
                name.append(key.as_str());
            },
            None => {},
        }
        assert(name@ =~= table_name(self@));
        name
    }

    /// The table's name, as `to_table_name` gives it.
    pub fn to_string(&self) -> (name: String)
        ensures
            name@ == table_name(self@),
    {
        self.to_table_name()
    }
}

// ---------------------------------------------------------------------------
// Reading undoes writing

/// The tables whose written name reads back as the table itself.
///
/// The basename and the key follow the grammar, the resolution has two
/// digits, a compacted table says so in its name, and no ending of the key
/// could itself be read as what follows a basename.
pub open spec fn round_trips(t: TableView) -> bool {
    &&& is_basename(t.basename)
    &&& t.spec.h3_resolution <= 99
    &&& t.spec.is_compacted ==> t.spec.has_base_suffix
    &&& match t.spec.temporary_key {
        Some(k) => is_key(k) && forall|i: int| 0 <= i < k.len() ==> read_tail(#[trigger] k.skip(i)) is None,
        None => true,
    }
}

/// Two decimal digits of a number below 100, and the number they denote.
pub proof fn lemma_two_digits(n: nat)
    requires
        n <= 99,
    ensures
        two_digits(n).len() == 2,
        is_digit(two_digits(n)[0]),
        is_digit(two_digits(n)[1]),
        10 * digit_value(two_digits(n)[0]) + digit_value(two_digits(n)[1]) == n,
{
    if n >= 10 {
        assert(n / 10 < 10);
        reveal_with_fuel(crate::text::decimal, 2);
        assert(crate::text::decimal(n) =~= seq![
            crate::text::digit_char((n / 10) as int),
            crate::text::digit_char((n % 10) as int),
        ]);
    }
}

proof fn lemma_read_temporary_of_text(key: Option<Seq<char>>)
    requires
        key is Some ==> is_key(key->0),
    ensures
        read_temporary(temporary_text(key)) == Some(key),
{
    reveal_strlit("_tmp");
    match key {
        Some(k) => {
            let t = temporary_text(key);
            assert(t.len() == 4 + k.len());
            assert("_tmp"@ =~= t.subrange(0, 4));
            assert(t.skip(4) =~= k);
        },
        None => {},
    }
}

/// What was written behind a basename reads back as the same properties.
pub proof fn lemma_read_tail_of_text(s: TableSpecView)
    requires
        s.h3_resolution <= 99,
        s.is_compacted ==> s.has_base_suffix,
        s.temporary_key is Some ==> is_key(s.temporary_key->0),
    ensures
        read_tail(tail_text(s)) == Some(s),
{
    reveal_strlit("_tmp");
    reveal_strlit("_base");
    reveal_strlit("_compacted");
    lemma_two_digits(s.h3_resolution as nat);
    lemma_read_temporary_of_text(s.temporary_key);
    let digits = two_digits(s.h3_resolution as nat);
    let suffix = suffix_text(s.has_base_suffix, s.is_compacted);
    let temporary = temporary_text(s.temporary_key);
    let t = tail_text(s);
    assert(t[0] == '_' && t[1] == digits[0] && t[2] == digits[1]);
    let rest = t.skip(3);
    assert(rest =~= suffix + temporary);
    if s.has_base_suffix {
        if s.is_compacted {
            assert("_compacted"@ =~= rest.subrange(0, 10));
            assert(rest.skip(10) =~= temporary);
        } else {
            assert(rest[1] == 'b');
            assert("_compacted"@[1] == 'c');
            if "_compacted"@.is_prefix_of(rest) {
                assert(rest.subrange(0, 10)[1] == rest[1]);
            }
            assert("_base"@ =~= rest.subrange(0, 5));
            assert(rest.skip(5) =~= temporary);
        }
    } else {
        assert(rest =~= temporary);
        if rest.len() > 0 {
            assert(rest[1] == 't');
            assert("_compacted"@[1] == 'c');
            assert("_base"@[1] == 'b');
            if "_compacted"@.is_prefix_of(rest) {
                assert(rest.subrange(0, 10)[1] == rest[1]);
            }
            if "_base"@.is_prefix_of(rest) {
                assert(rest.subrange(0, 5)[1] == rest[1]);
            }
        }
    }
}

/// The optional parts of a name start with `_` and go on with letters.
proof fn lemma_marker_chars(has_base_suffix: bool, is_compacted: bool, key: Option<Seq<char>>)
    ensures
        ({
            let suffix = suffix_text(has_base_suffix, is_compacted);
            suffix.len() > 0 ==> suffix[0] == '_' && forall|i: int|
                1 <= i < suffix.len() ==> is_letter(#[trigger] suffix[i])
        }),
        key is Some ==> ({
            let temporary = temporary_text(key);
            &&& temporary.len() == 4 + key->0.len()
            &&& temporary[0] == '_'
            &&& is_letter(temporary[1])
            &&& is_letter(temporary[2])
            &&& is_letter(temporary[3])
            &&& forall|i: int| 0 <= i <= key->0.len() ==> #[trigger] temporary.skip(4 + i) == key->0.skip(i)
        }),
        key is None ==> temporary_text(key).len() == 0,
{
    reveal_strlit("_tmp");
    reveal_strlit("_base");
    reveal_strlit("_compacted");
    if key is Some {
        let temporary = temporary_text(key);
        assert forall|i: int| 0 <= i <= key->0.len() implies #[trigger] temporary.skip(4 + i)
            == key->0.skip(i) by {
            assert(temporary.skip(4 + i) =~= key->0.skip(i));
        }
    }
}

/// Where a tail can be read, `_` and two digits stand in front.
proof fn lemma_tail_start(t: Seq<char>)
    requires
        read_tail(t) is Some,
    ensures
        t.len() >= 3,
        t[0] == '_',
        is_digit(t[1]),
{
}

/// Inside what was written behind a basename, in front of the key, nothing
/// looks like the start of a tail.
proof fn lemma_no_tail_start(s: TableSpecView, j: int)
    requires
        s.h3_resolution <= 99,
        0 < j < tail_text(s).len() - 1,
        j < 3 + suffix_text(s.has_base_suffix, s.is_compacted).len() + 4,
    ensures
        tail_text(s)[j] != '_' || !is_digit(tail_text(s)[j + 1]),
{
    lemma_two_digits(s.h3_resolution as nat);
    lemma_marker_chars(s.has_base_suffix, s.is_compacted, s.temporary_key);
    let digits = two_digits(s.h3_resolution as nat);
    let suffix = suffix_text(s.has_base_suffix, s.is_compacted);
    let temporary = temporary_text(s.temporary_key);
    let head = seq!['_'] + digits;
    let tail = tail_text(s);
    assert(tail =~= head + (suffix + temporary));
    assert(head.len() == 3 && head[1] == digits[0] && head[2] == digits[1]);
    let optional = suffix + temporary;
    if j >= 3 {
        assert(tail[j] == optional[j - 3]);
        assert(tail[j + 1] == optional[j - 2]);
        let k = j - 3;
        if k < suffix.len() {
            assert(optional[k] == suffix[k]);
            if k + 1 < suffix.len() {
                assert(optional[k + 1] == suffix[k + 1]);
            } else {
                assert(optional[k + 1] == temporary[0]);
            }
        } else {
            assert(optional[k] == temporary[k - suffix.len()]);
            assert(optional[k + 1] == temporary[k + 1 - suffix.len()]);
            assert(k - suffix.len() < 4);
            if k + 1 - suffix.len() == 4 {
                assert(is_letter(temporary[3]));
            }
        }
    }
}

/// No basename of a written name is longer than the one it was written with.
proof fn lemma_no_longer_split(t: TableView, q: int)
    requires
        round_trips(t),
        q > t.basename.len(),
    ensures
        !splits_at(table_name(t), q),
{
    let name = table_name(t);
    let tail = tail_text(t.spec);
    let suffix = suffix_text(t.spec.has_base_suffix, t.spec.is_compacted);
    let temporary = temporary_text(t.spec.temporary_key);
    let b = t.basename.len() as int;
    let j = q - b;
    if 0 <= q <= name.len() && read_tail(name.skip(q)) is Some {
        let rest = name.skip(q);
        lemma_tail_start(rest);
        assert(rest[0] == name[q] && rest[1] == name[q + 1]);
        assert(name[q] == tail[j] && name[q + 1] == tail[j + 1]);
        let m = 3 + suffix.len();
        if j < m + 4 {
            lemma_no_tail_start(t.spec, j);
        } else {
            lemma_marker_chars(t.spec.has_base_suffix, t.spec.is_compacted, t.spec.temporary_key);
            lemma_two_digits(t.spec.h3_resolution as nat);
            assert(tail.len() == m + temporary.len());
            let k = t.spec.temporary_key->0;
            assert(rest =~= tail.skip(j));
            assert(tail.skip(j) =~= temporary.skip(j - m));
            assert(temporary.skip(4 + (j - m - 4)) == k.skip(j - m - 4));
        }
    }
}

/// Reading undoes writing: the name of a table that [`round_trips`] reads
/// as that table, and as nothing else.
pub proof fn lemma_name_round_trip(t: TableView)
    requires
        round_trips(t),
    ensures
        reading(table_name(t)) == Some(t),
        is_reading_of(table_name(t), Some(t)),
        forall|r: Option<TableView>| is_reading_of(table_name(t), r) ==> r == Some(t),
{
    let name = table_name(t);
    let b = t.basename.len() as int;
    lemma_read_tail_of_text(t.spec);
    assert(name.take(b) =~= t.basename);
    assert(name.skip(b) =~= tail_text(t.spec));
    assert(splits_at(name, b));
    assert(table_at(name, b) == t);
    assert forall|q: int| #[trigger] splits_at(name, q) implies q <= b by {
        if q > b {
            lemma_no_longer_split(t, q);
        }
    }
    assert forall|r: Option<TableView>| is_reading_of(name, r) implies r == Some(t) by {
        match r {
            Some(other) => {
                let p = choose|p: int|
                    {
                        &&& #[trigger] splits_at(name, p)
                        &&& other == table_at(name, p)
                        &&& forall|q: int| #[trigger] splits_at(name, q) ==> q <= p
                    };
                assert(p <= b);
                assert(b <= p);
            },
            None => {
                assert(splits_at(name, b));
            },
        }
    }
    lemma_reading_unique(name, Some(t));
}


/// The name of a table that is not temporary is made of word characters,
/// with `_` behind the basename.
pub proof fn lemma_name_is_words(t: TableView)
    requires
        is_basename(t.basename),
        t.spec.h3_resolution <= 99,
        t.spec.temporary_key is None,
    ensures
        all_word_chars(table_name(t)),
        table_name(t).len() > t.basename.len(),
        table_name(t)[t.basename.len() as int] == '_',
{
    lemma_two_digits(t.spec.h3_resolution as nat);
    lemma_marker_chars(t.spec.has_base_suffix, t.spec.is_compacted, t.spec.temporary_key);
    let name = table_name(t);
    let b = t.basename.len() as int;
    let digits = two_digits(t.spec.h3_resolution as nat);
    let suffix = suffix_text(t.spec.has_base_suffix, t.spec.is_compacted);
    assert(name =~= t.basename + seq!['_'] + digits + suffix);
    assert forall|i: int| 0 <= i < name.len() implies is_word_char(#[trigger] name[i]) by {
        if i < b {
            assert(name[i] == t.basename[i]);
        } else if i == b {
        } else if i < b + 3 {
            assert(name[i] == digits[i - b - 1]);
        } else {
            assert(name[i] == suffix[i - b - 3]);
        }
    }
}


} // verus!
