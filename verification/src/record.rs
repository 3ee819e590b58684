//! Typed records and how a table row is projected onto each of them.
//!
//! A row reaches a record as a sequence of `(name, type tag, value)` triples
//! in column order. A record picks the values of the names it knows; where a
//! name occurs more than once the last occurrence counts, and where it does
//! not occur the attribute keeps its default. Names that a record does not
//! know are never looked at.

use vstd::prelude::*;
use vstd::string::*;

use crate::flags::{flag_of, RibbitFlags};
use crate::text::{parse_i32, parse_number, same_text, split, split_text};

verus! {

/// The value of the last triple in `row` that is named `key`.
pub open spec fn value_of(row: Seq<(Seq<char>, Seq<char>, Seq<char>)>, key: Seq<char>) -> Option<
    Seq<char>,
>
    decreases row.len(),
{
    if row.len() == 0 {
        None
    } else if row.last().0 == key {
        Some(row.last().2)
    } else {
        value_of(row.drop_last(), key)
    }
}

/// A text attribute: the value as it stands, empty where the row has none.
pub open spec fn text_of(row: Seq<(Seq<char>, Seq<char>, Seq<char>)>, key: Seq<char>) -> Seq<
    char,
> {
    match value_of(row, key) {
        Some(value) => value,
        None => Seq::empty(),
    }
}

/// A cell read as a number, leniently: what does not parse counts as zero.
pub open spec fn lenient_number(value: Seq<char>) -> i32 {
    match parse_i32(value) {
        Some(number) => number,
        None => 0,
    }
}

/// A numeric attribute: zero where the row has no such value or the value is
/// not a base-ten integer.
pub open spec fn number_of(row: Seq<(Seq<char>, Seq<char>, Seq<char>)>, key: Seq<char>) -> i32 {
    match value_of(row, key) {
        Some(value) => lenient_number(value),
        None => 0,
    }
}

/// The tokens of a space-delimited cell; an empty cell holds none.
pub open spec fn tokens(value: Seq<char>) -> Seq<Seq<char>> {
    if value.len() == 0 {
        Seq::empty()
    } else {
        split(value, ' ')
    }
}

/// A list attribute: the tokens of the value, none where the row has no such
/// value.
pub open spec fn list_of(row: Seq<(Seq<char>, Seq<char>, Seq<char>)>, key: Seq<char>) -> Seq<
    Seq<char>,
> {
    match value_of(row, key) {
        Some(value) => tokens(value),
        None => Seq::empty(),
    }
}

/// A flag attribute: `Unknown` where the row has no such value or the value
/// is not a known flag.
pub open spec fn flags_of(row: Seq<(Seq<char>, Seq<char>, Seq<char>)>, key: Seq<char>)
    -> RibbitFlags {
    match value_of(row, key) {
        Some(value) => flag_of(value),
        None => RibbitFlags::Unknown,
    }
}

/// A name that no triple of the row has is without a value, so that the
/// attribute read from it keeps its default.
pub proof fn lemma_missing_name(row: Seq<(Seq<char>, Seq<char>, Seq<char>)>, key: Seq<char>)
    requires
        forall|i: int| 0 <= i < row.len() ==> (#[trigger] row[i]).0 != key,
    ensures
        value_of(row, key) is None,
        text_of(row, key) == Seq::<char>::empty(),
        number_of(row, key) == 0,
        list_of(row, key) == Seq::<Seq<char>>::empty(),
        flags_of(row, key) == RibbitFlags::Unknown,
    decreases row.len(),
{
    if row.len() > 0 {
        let front = row.drop_last();
        assert(row[row.len() - 1].0 != key);
        assert forall|i: int| 0 <= i < front.len() implies (#[trigger] front[i]).0 != key by {
            assert(front[i] == row[i]);
        }
        lemma_missing_name(front, key);
    }
}

/// Where no other triple of the row has the name of the triple at `at`, the
/// value of that name is the value of that triple.
pub proof fn lemma_unique_name(row: Seq<(Seq<char>, Seq<char>, Seq<char>)>, at: int)
    requires
        0 <= at < row.len(),
        forall|i: int| 0 <= i < row.len() && i != at ==> (#[trigger] row[i]).0 != row[at].0,
    ensures
        value_of(row, row[at].0) == Some(row[at].2),
    decreases row.len(),
{
    if at < row.len() - 1 {
        let front = row.drop_last();
        assert(row[row.len() - 1].0 != row[at].0);
        assert forall|i: int| 0 <= i < front.len() && i != at implies (#[trigger] front[i]).0
            != front[at].0 by {
            assert(front[i] == row[i]);
        }
        lemma_unique_name(front, at);
    }
}

/// A triple under another name does not change the value of a name: taking
/// it out of the row leaves the value as it was.
pub proof fn lemma_other_name_ignored(
    row: Seq<(Seq<char>, Seq<char>, Seq<char>)>,
    at: int,
    key: Seq<char>,
)
    requires
        0 <= at < row.len(),
        row[at].0 != key,
    ensures
        value_of(row.remove(at), key) == value_of(row, key),
    decreases row.len(),
{
    let front = row.drop_last();
    if at == row.len() - 1 {
        assert(row.remove(at) =~= front);
    } else {
        let without = row.remove(at);
        assert(without.last() == row.last());
        assert(without.drop_last() =~= front.remove(at));
        if row.last().0 != key {
            lemma_other_name_ignored(front, at, key);
        }
    }
}

/// Leniency: a numeric attribute whose cell is not a base-ten integer is
/// zero.
pub proof fn lemma_unreadable_number(row: Seq<(Seq<char>, Seq<char>, Seq<char>)>, key: Seq<char>)
    requires
        value_of(row, key) is Some,
        parse_i32(value_of(row, key).unwrap()) is None,
    ensures
        number_of(row, key) == 0,
{
}

/// Finds the value of the last triple named `key`.
pub fn find_value(row: &Vec<(String, String, String)>, key: &str) -> (found: Option<String>)
    ensures
        match found {
            Some(value) => value_of(row.deep_view(), key@) == Some(value@),
            None => value_of(row.deep_view(), key@) is None,
        },
{
    let ghost triples = row.deep_view();
    let mut i: usize = row.len();
    assert(triples.take(i as int) =~= triples);
    while i > 0
        invariant
            i <= row.len(),
            triples == row.deep_view(),
            value_of(triples, key@) == value_of(triples.take(i as int), key@),
        decreases i,
    {
        let ghost upto = triples.take(i as int);
        i = i - 1;
        proof {
            assert(upto.drop_last() =~= triples.take(i as int));
            assert(upto.last() == triples[i as int]);
            assert(triples[i as int].0 == row[i as int].0@);
            assert(triples[i as int].2 == row[i as int].2@);
        }
        if same_text(row[i].0.as_str(), key) {
            return Some(row[i].2.clone());
        }
    }
    None
}

/// Reads a text attribute from a row.
pub fn text_field(row: &Vec<(String, String, String)>, key: &str) -> (text: String)
    ensures
        text@ == text_of(row.deep_view(), key@),
{
    match find_value(row, key) {
        Some(value) => value,
        None => String::new(),
    }
}

/// Reads a numeric attribute from a row.
pub fn number_field(row: &Vec<(String, String, String)>, key: &str) -> (number: i32)
    ensures
        number == number_of(row.deep_view(), key@),
{
    match find_value(row, key) {
        Some(value) => match parse_number(value.as_str()) {
            Some(number) => number,
            None => 0,
        },
        None => 0,
    }
}

/// Reads a space-delimited list attribute from a row.
pub fn list_field(row: &Vec<(String, String, String)>, key: &str) -> (list: Vec<String>)
    ensures
        list.deep_view() == list_of(row.deep_view(), key@),
{
    match find_value(row, key) {
        Some(value) => {
            if value.as_str().is_empty() {
                let list: Vec<String> = Vec::new();
                assert(list.deep_view() =~= Seq::<Seq<char>>::empty());
                list
            } else {
                split_text(value.as_str(), ' ')
            }
        },
        None => {
            let list: Vec<String> = Vec::new();
            assert(list.deep_view() =~= Seq::<Seq<char>>::empty());
            list
        },
    }
}

/// Reads a flag attribute from a row.
pub fn flags_field(row: &Vec<(String, String, String)>, key: &str) -> (flags: RibbitFlags)
    ensures
        flags == flags_of(row.deep_view(), key@),
{
    match find_value(row, key) {
        Some(value) => RibbitFlags::parse(value.as_str()),
        None => RibbitFlags::Unknown,
    }
}

/// A record type that can be built from one table row.
pub trait FromRow: Sized + View {
    /// The record that a row stands for.
    spec fn decoded(row: Seq<(Seq<char>, Seq<char>, Seq<char>)>) -> Self::V;

    /// Builds the record from the `(name, type tag, value)` triples of a row.
    fn from_row(row_values: Vec<(String, String, String)>) -> (record: Self)
        ensures
            record@ == Self::decoded(row_values.deep_view()),
    ;
}

/// One product of the summary table.
#[derive(Debug, Clone, PartialEq, Eq)]
pub struct SummaryObject {
    pub product: String,
    pub seqn: i32,
    pub flags: RibbitFlags,
}

/// What a `SummaryObject` holds.
pub struct SummaryView {
    pub product: Seq<char>,
    pub seqn: i32,
    pub flags: RibbitFlags,
}

impl View for SummaryObject {
    type V = SummaryView;

    open spec fn view(&self) -> SummaryView {
        SummaryView { product: self.product@, seqn: self.seqn, flags: self.flags }
    }
}

impl Default for SummaryObject {
    fn default() -> (record: Self)
        ensures
            record@ == (SummaryView {
                product: Seq::empty(),
                seqn: 0,
                flags: RibbitFlags::Unknown,
            }),
    {
        SummaryObject { product: String::new(), seqn: 0, flags: RibbitFlags::Unknown }
    }
}

impl FromRow for SummaryObject {
    open spec fn decoded(row: Seq<(Seq<char>, Seq<char>, Seq<char>)>) -> SummaryView {
        SummaryView {
            product: text_of(row, "Product"@),
            seqn: number_of(row, "Seqn"@),
            flags: flags_of(row, "Flags"@),
        }
    }

    fn from_row(row_values: Vec<(String, String, String)>) -> (record: Self) {
        SummaryObject {
            product: text_field(&row_values, "Product"),
            seqn: number_field(&row_values, "Seqn"),
            flags: flags_field(&row_values, "Flags"),
        }
    }
}

/// Whether a column name is one that a `SummaryObject` reads.
pub open spec fn is_summary_name(name: Seq<char>) -> bool {
    name == "Product"@ || name == "Seqn"@ || name == "Flags"@
}

/// A summary record does not depend on columns that it does not read.
pub proof fn lemma_summary_ignores_other_columns(
    row: Seq<(Seq<char>, Seq<char>, Seq<char>)>,
    at: int,
)
    requires
        0 <= at < row.len(),
        !is_summary_name(row[at].0),
    ensures
        SummaryObject::decoded(row.remove(at)) == SummaryObject::decoded(row),
{
    lemma_other_name_ignored(row, at, "Product"@);
    lemma_other_name_ignored(row, at, "Seqn"@);
    lemma_other_name_ignored(row, at, "Flags"@);
}

/// One content-delivery entry of a product.
#[derive(Debug, Clone, PartialEq, Eq)]
pub struct CdnObject {
    pub name: String,
    pub path: String,
    pub hosts: Vec<String>,
    pub servers: Vec<String>,
    pub config_path: String,
}

/// What a `CdnObject` holds.
pub struct CdnView {
    pub name: Seq<char>,
    pub path: Seq<char>,
    pub hosts: Seq<Seq<char>>,
    pub servers: Seq<Seq<char>>,
    pub config_path: Seq<char>,
}

impl View for CdnObject {
    type V = CdnView;

    open spec fn view(&self) -> CdnView {
        CdnView {
            name: self.name@,
            path: self.path@,
            hosts: self.hosts.deep_view(),
            servers: self.servers.deep_view(),
            config_path: self.config_path@,
        }
    }
}

impl Default for CdnObject {
    fn default() -> (record: Self)
        ensures
            record@ == (CdnView {
                name: Seq::empty(),
                path: Seq::empty(),
                hosts: Seq::empty(),
                servers: Seq::empty(),
                config_path: Seq::empty(),
            }),
    {
        let record = CdnObject {
            name: String::new(),
            path: String::new(),
            hosts: Vec::new(),
            servers: Vec::new(),
            config_path: String::new(),
        };
        assert(record.hosts.deep_view() =~= Seq::<Seq<char>>::empty());
        assert(record.servers.deep_view() =~= Seq::<Seq<char>>::empty());
        record
    }
}

impl FromRow for CdnObject {
    open spec fn decoded(row: Seq<(Seq<char>, Seq<char>, Seq<char>)>) -> CdnView {
        CdnView {
            name: text_of(row, "Name"@),
            path: text_of(row, "Path"@),
            hosts: list_of(row, "Hosts"@),
            servers: list_of(row, "Servers"@),
            config_path: text_of(row, "ConfigPath"@),
        }
    }

    fn from_row(row_values: Vec<(String, String, String)>) -> (record: Self) {
        CdnObject {
            name: text_field(&row_values, "Name"),
            path: text_field(&row_values, "Path"),
            hosts: list_field(&row_values, "Hosts"),
            servers: list_field(&row_values, "Servers"),
            config_path: text_field(&row_values, "ConfigPath"),
        }
    }
}

/// Whether a column name is one that a `CdnObject` reads.
pub open spec fn is_cdn_name(name: Seq<char>) -> bool {
    name == "Name"@ || name == "Path"@ || name == "Hosts"@ || name == "Servers"@ || name
        == "ConfigPath"@
}

/// A content-delivery record does not depend on columns that it does not
/// read.
pub proof fn lemma_cdn_ignores_other_columns(
    row: Seq<(Seq<char>, Seq<char>, Seq<char>)>,
    at: int,
)
    requires
        0 <= at < row.len(),
        !is_cdn_name(row[at].0),
    ensures
        CdnObject::decoded(row.remove(at)) == CdnObject::decoded(row),
{
    lemma_other_name_ignored(row, at, "Name"@);
    lemma_other_name_ignored(row, at, "Path"@);
    lemma_other_name_ignored(row, at, "Hosts"@);
    lemma_other_name_ignored(row, at, "Servers"@);
    lemma_other_name_ignored(row, at, "ConfigPath"@);
}

/// What a `VersionObject` or a `BgdlObject` holds: one build of a product in
/// one region.
pub struct BuildView {
    pub region: Seq<char>,
    pub build_config: Seq<char>,
    pub cdn_config: Seq<char>,
    pub key_ring: Seq<char>,
    pub build_id: i32,
    pub version_name: Seq<char>,
    pub product_config: Seq<char>,
}

/// The build that a row of the versions table, or of the background-download
/// table, stands for.
pub open spec fn build_of(row: Seq<(Seq<char>, Seq<char>, Seq<char>)>) -> BuildView {
    BuildView {
        region: text_of(row, "Region"@),
        build_config: text_of(row, "BuildConfig"@),
        cdn_config: text_of(row, "CDNConfig"@),
        key_ring: text_of(row, "KeyRing"@),
        build_id: number_of(row, "BuildId"@),
        version_name: text_of(row, "VersionsName"@),
        product_config: text_of(row, "ProductConfig"@),
    }
}

/// The build without any attribute set.
pub open spec fn empty_build() -> BuildView {
    BuildView {
        region: Seq::empty(),
        build_config: Seq::empty(),
        cdn_config: Seq::empty(),
        key_ring: Seq::empty(),
        build_id: 0,
        version_name: Seq::empty(),
        product_config: Seq::empty(),
    }
}

/// Whether a column name is one that a `VersionObject` or a `BgdlObject`
/// reads.
pub open spec fn is_build_name(name: Seq<char>) -> bool {
    name == "Region"@ || name == "BuildConfig"@ || name == "CDNConfig"@ || name == "KeyRing"@
        || name == "BuildId"@ || name == "VersionsName"@ || name == "ProductConfig"@
}

/// A build record does not depend on columns that it does not read.
pub proof fn lemma_build_ignores_other_columns(
    row: Seq<(Seq<char>, Seq<char>, Seq<char>)>,
    at: int,
)
    requires
        0 <= at < row.len(),
        !is_build_name(row[at].0),
    ensures
        build_of(row.remove(at)) == build_of(row),
{
    lemma_other_name_ignored(row, at, "Region"@);
    lemma_other_name_ignored(row, at, "BuildConfig"@);
    lemma_other_name_ignored(row, at, "CDNConfig"@);
    lemma_other_name_ignored(row, at, "KeyRing"@);
    lemma_other_name_ignored(row, at, "BuildId"@);
    lemma_other_name_ignored(row, at, "VersionsName"@);
    lemma_other_name_ignored(row, at, "ProductConfig"@);
}

/// The current build of a product in one region.
#[derive(Debug, Clone, PartialEq, Eq)]
pub struct VersionObject {
    pub region: String,
    pub build_config: String,
    pub cdn_config: String,
    pub key_ring: String,
    pub build_id: i32,
    pub version_name: String,
    pub product_config: String,
}

impl View for VersionObject {
    type V = BuildView;

    open spec fn view(&self) -> BuildView {
        BuildView {
            region: self.region@,
            build_config: self.build_config@,
            cdn_config: self.cdn_config@,
            key_ring: self.key_ring@,
            build_id: self.build_id,
            version_name: self.version_name@,
            product_config: self.product_config@,
        }
    }
}

impl Default for VersionObject {
    fn default() -> (record: Self)
        ensures
            record@ == empty_build(),
    {
        VersionObject {
            region: String::new(),
            build_config: String::new(),
            cdn_config: String::new(),
            key_ring: String::new(),
            build_id: 0,
            version_name: String::new(),
            product_config: String::new(),
        }
    }
}

impl FromRow for VersionObject {
    open spec fn decoded(row: Seq<(Seq<char>, Seq<char>, Seq<char>)>) -> BuildView {
        build_of(row)
    }

    fn from_row(row_values: Vec<(String, String, String)>) -> (record: Self) {
        VersionObject {
            region: text_field(&row_values, "Region"),
            build_config: text_field(&row_values, "BuildConfig"),
            cdn_config: text_field(&row_values, "CDNConfig"),
            key_ring: text_field(&row_values, "KeyRing"),
            build_id: number_field(&row_values, "BuildId"),
            version_name: text_field(&row_values, "VersionsName"),
            product_config: text_field(&row_values, "ProductConfig"),
        }
    }
}

/// The build that a product downloads in the background in one region.
#[derive(Debug, Clone, PartialEq, Eq)]
pub struct BgdlObject {
    pub region: String,
    pub build_config: String,
    pub cdn_config: String,
    pub key_ring: String,
    pub build_id: i32,
    pub version_name: String,
    pub product_config: String,
}

impl View for BgdlObject {
    type V = BuildView;

    open spec fn view(&self) -> BuildView {
        BuildView {
            region: self.region@,
            build_config: self.build_config@,
            cdn_config: self.cdn_config@,
            key_ring: self.key_ring@,
            build_id: self.build_id,
            version_name: self.version_name@,
            product_config: self.product_config@,
        }
    }
}

impl Default for BgdlObject {
    fn default() -> (record: Self)
        ensures
            record@ == empty_build(),
    {
        BgdlObject {
            region: String::new(),
            build_config: String::new(),
            cdn_config: String::new(),
            key_ring: String::new(),
            build_id: 0,
            version_name: String::new(),
            product_config: String::new(),
        }
    }
}

impl FromRow for BgdlObject {
    open spec fn decoded(row: Seq<(Seq<char>, Seq<char>, Seq<char>)>) -> BuildView {
        build_of(row)
    }

    fn from_row(row_values: Vec<(String, String, String)>) -> (record: Self) {
        BgdlObject {
            region: text_field(&row_values, "Region"),
            build_config: text_field(&row_values, "BuildConfig"),
            cdn_config: text_field(&row_values, "CDNConfig"),
            key_ring: text_field(&row_values, "KeyRing"),
            build_id: number_field(&row_values, "BuildId"),
            version_name: text_field(&row_values, "VersionsName"),
            product_config: text_field(&row_values, "ProductConfig"),
        }
    }
}

} // verus!
