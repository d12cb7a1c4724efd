//! The OpenDRIVE checker bundle: its name and version, the schema file of
//! each OpenDRIVE version, the document model and the checkers.
pub mod checks;
pub mod models;
pub mod utils;

use vstd::prelude::*;

use crate::text::str_eq;

verus! {

/// Name of the checker bundle in the reports.
pub const BUNDLE_NAME: &'static str = "xodrBundle";

/// Version of the checker bundle in the reports.
pub const BUNDLE_VERSION: &'static str = "v1.0.0";

/// The schema file (relative to the schema directory) of each OpenDRIVE
/// version, in ascending order of version.
pub open spec fn schema_table() -> Seq<(Seq<char>, Seq<char>)> {
    seq![
        ("1.1.0"@, "1.1/OpenDRIVE_1.1.xsd"@),
        ("1.2.0"@, "1.2/OpenDRIVE_1.2.xsd"@),
        ("1.3.0"@, "1.3/OpenDRIVE_1.3.xsd"@),
        ("1.4.0"@, "1.4/OpenDRIVE_1.4H.xsd"@),
        ("1.5.0"@, "1.5/OpenDRIVE_1.5M.xsd"@),
        ("1.6.0"@, "1.6.1/opendrive_16_core.xsd"@),
        ("1.7.0"@, "1.7.0/opendrive_17_core.xsd"@),
        ("1.8.0"@, "1.8.1/OpenDRIVE_Core.xsd"@),
    ]
}

/// The pairs (OpenDRIVE version, schema file) as plain character sequences.
pub open spec fn pair_views(v: Seq<(&'static str, &'static str)>) -> Seq<(Seq<char>, Seq<char>)> {
    v.map_values(|p: (&'static str, &'static str)| (p.0@, p.1@))
}

/// The schema file of each supported OpenDRIVE version (e.g. `1.7.0`),
/// relative to the schema directory.
pub fn schema_files() -> (r: Vec<(&'static str, &'static str)>)
    ensures
        pair_views(r@) == schema_table(),
{
    let r = vec![
        ("1.1.0", "1.1/OpenDRIVE_1.1.xsd"),
        ("1.2.0", "1.2/OpenDRIVE_1.2.xsd"),
        ("1.3.0", "1.3/OpenDRIVE_1.3.xsd"),
        ("1.4.0", "1.4/OpenDRIVE_1.4H.xsd"),
        ("1.5.0", "1.5/OpenDRIVE_1.5M.xsd"),
        ("1.6.0", "1.6.1/opendrive_16_core.xsd"),
        ("1.7.0", "1.7.0/opendrive_17_core.xsd"),
        ("1.8.0", "1.8.1/OpenDRIVE_Core.xsd"),
    ];
    assert(pair_views(r@) =~= schema_table());
    r
}

/// The schema file of the first entry of `table` for `version`, looking
/// from `k` on.
pub open spec fn lookup_from(table: Seq<(Seq<char>, Seq<char>)>, version: Seq<char>, k: int) -> Option<Seq<char>>
    decreases table.len() - k,
{
    if k < 0 || k >= table.len() {
        None
    } else if table[k].0 == version {
        Some(table[k].1)
    } else {
        lookup_from(table, version, k + 1)
    }
}

/// The schema file of OpenDRIVE version `version`, when it is supported.
pub fn schema_file_for(version: &str) -> (r: Option<&'static str>)
    ensures
        match r {
            Some(f) => lookup_from(schema_table(), version@, 0) == Some(f@),
            None => lookup_from(schema_table(), version@, 0) is None,
        },
{
    let table = schema_files();
    let n = table.len();
    let mut i: usize = 0;
    while i < n
        invariant
            i <= n,
            n == table@.len(),
            pair_views(table@) == schema_table(),
            lookup_from(schema_table(), version@, 0) == lookup_from(schema_table(), version@, i as int),
        decreases n - i,
    {
        let (v, f) = table[i];
        assert(schema_table()[i as int] == (v@, f@));
        if str_eq(v, version) {
            return Some(f);
        }
        i = i + 1;
    }
    None
}


/// Each supported OpenDRIVE version finds its own schema file.
pub proof fn law_schema_file_of_each_version(k: int)
    requires
        0 <= k < schema_table().len(),
    ensures
        lookup_from(schema_table(), schema_table()[k].0, 0) == Some(schema_table()[k].1),
{
    reveal_strlit("1.1.0");
    reveal_strlit("1.2.0");
    reveal_strlit("1.3.0");
    reveal_strlit("1.4.0");
    reveal_strlit("1.5.0");
    reveal_strlit("1.6.0");
    reveal_strlit("1.7.0");
    reveal_strlit("1.8.0");
    let t = schema_table();
    assert forall|a: int, b: int| 0 <= a < b < 8 implies t[a].0 != t[b].0 by {
        assert(t[a].0[2] != t[b].0[2]);
    }
    lemma_lookup_first(t, t[k].0, k, 0);
}

proof fn lemma_lookup_first(t: Seq<(Seq<char>, Seq<char>)>, v: Seq<char>, k: int, from: int)
    requires
        0 <= from <= k < t.len(),
        t[k].0 == v,
        forall|j: int| from <= j < k ==> t[j].0 != v,
    ensures
        lookup_from(t, v, from) == Some(t[k].1),
    decreases k - from,
{
    if from < k {
        lemma_lookup_first(t, v, k, from + 1);
    }
}

} // verus!
