//! The human-readable view of a report: one table row per bucket.

use vstd::prelude::*;
use crate::model::{Library, LibraryView, Linkage, Bucket, display_of, opt_view};

verus! {

/// Lines joined with line breaks.
pub open spec fn joined(lines: Seq<Seq<char>>) -> Seq<char>
    decreases lines.len(),
{
    if lines.len() == 0 {
        Seq::empty()
    } else if lines.len() == 1 {
        lines[0]
    } else {
        joined(lines.drop_last()) + "\n"@ + lines.last()
    }
}

/// The cell of a bucket: each library in display form, or by path alone.
pub open spec fn cell_of(libs: Seq<LibraryView>, with_source: bool) -> Seq<char> {
    joined(libs.map_values(|l: LibraryView| if with_source { display_of(l) } else { l.0 }))
}

fn cell(libs: &Vec<Library>, with_source: bool) -> (r: String)
    ensures
        r@ == cell_of(libs@.map_values(|l: Library| l@), with_source),
{
    let ghost lines = libs@.map_values(|l: Library| l@).map_values(
        |l: LibraryView| if with_source { display_of(l) } else { l.0 },
    );
    let mut out = String::new();
    let n = libs.len();
    let mut i: usize = 0;
    while i < n
        invariant
            n == libs@.len(),
            lines.len() == n,
            lines == libs@.map_values(|l: Library| l@).map_values(
                |l: LibraryView| if with_source { display_of(l) } else { l.0 },
            ),
            i <= n,
            out@ == joined(lines.subrange(0, i as int)),
        decreases n - i,
    {
        assert(lines.subrange(0, i + 1).drop_last() =~= lines.subrange(0, i as int));
        let line = if with_source {
            libs[i].display()
        } else {
            libs[i].path.clone()
        };
        assert(line@ == lines[i as int]);
        if i > 0 {
            out.append("\n");
        } else {
            assert(out@ =~= Seq::<char>::empty());
        }
        out.append(line.as_str());
        proof {
            if i == 0 {
                assert(out@ =~= lines.subrange(0, 1)[0]);
            }
        }
        i += 1;
    }
    assert(lines.subrange(0, n as int) =~= lines);
    out
}

/// The rows of the table: a bucket's title, and its libraries one per line.
pub open spec fn rows_of(l: Linkage) -> Seq<(Seq<char>, Seq<char>)> {
    seq![
        ("System"@, cell_of(l.bucket(Bucket::System), true)),
        ("Homebrew"@, cell_of(l.bucket(Bucket::Homebrew), true)),
        ("Public (unmanaged)"@, cell_of(l.bucket(Bucket::PublicUnmanaged), false)),
        ("Frameworks"@, cell_of(l.bucket(Bucket::Frameworks), false)),
        ("Other"@, cell_of(l.bucket(Bucket::Other), true)),
    ]
}

pub open spec fn rows_view(v: Seq<(String, String)>) -> Seq<(Seq<char>, Seq<char>)> {
    v.map_values(|r: (String, String)| (r.0@, r.1@))
}

/// The table rows of a report, one per bucket.
pub fn report_rows(linkage: &Linkage) -> (r: Vec<(String, String)>)
    ensures
        rows_view(r@) == rows_of(*linkage),
{
    let mut rows: Vec<(String, String)> = Vec::new();
    rows.push((String::from_str("System"), cell(&linkage.system, true)));
    rows.push((String::from_str("Homebrew"), cell(&linkage.homebrew, true)));
    rows.push((String::from_str("Public (unmanaged)"), cell(&linkage.public_unmanaged, false)));
    rows.push((String::from_str("Frameworks"), cell(&linkage.frameworks, false)));
    rows.push((String::from_str("Other"), cell(&linkage.other, true)));
    assert(rows_view(rows@) =~= rows_of(*linkage));
    rows
}

/// The text of a table with a two-cell header and the given rows, drawn
/// with full UTF-8 borders.
pub uninterp spec fn table_text(h0: Seq<char>, h1: Seq<char>, rows: Seq<(Seq<char>, Seq<char>)>) -> Seq<char>;

/// Relies on comfy_table::Table: the drawn text of a two-column table with
/// the UTF8_FULL preset.
#[verifier::external_body]
fn render_table(h0: &str, h1: &str, rows: &Vec<(String, String)>) -> (r: String)
    ensures
        r@ == table_text(h0@, h1@, rows_view(rows@)),
{
    let mut table = comfy_table::Table::new();
    table.load_preset(comfy_table::presets::UTF8_FULL).set_header(vec![h0, h1]);
    table.add_rows(rows.iter().map(|r| vec![r.0.as_str(), r.1.as_str()]));
    table.to_string()
}

/// The heading of a report: `binary (target):` and a blank line, where
/// both are known.
pub open spec fn heading_of(l: Linkage) -> Seq<char> {
    match (opt_view(l.binary), opt_view(l.target)) {
        (Some(b), Some(t)) => b + " ("@ + t + "):\n\n"@,
        _ => Seq::empty(),
    }
}

/// A report's text given its drawn table: the heading, then the table.
pub fn report_with_table(linkage: &Linkage, table: &str) -> (r: String)
    ensures
        r@ == heading_of(*linkage) + table@,
{
    let mut out = String::new();
    match (&linkage.binary, &linkage.target) {
        (Some(b), Some(t)) => {
            out.append(b.as_str());
            out.append(" (");
            out.append(t.as_str());
            out.append("):\n\n");
        },
        _ => {},
    }
    out.append(table);
    assert(out@ =~= heading_of(*linkage) + table@);
    out
}

/// The human-readable report: heading, then a table of the buckets.
pub fn report_linkage(linkage: &Linkage) -> (r: String)
    ensures
        r@ == heading_of(*linkage) + table_text("Category"@, "Libraries"@, rows_of(*linkage)),
{
    let rows = report_rows(linkage);
    let table = render_table("Category", "Libraries", &rows);
    report_with_table(linkage, table.as_str())
}

} // verus!
