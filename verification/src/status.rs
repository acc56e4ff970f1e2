//! The `status` report: where the schema, input and output are, and which
//! fields of the schema the input already sets.

use vstd::prelude::*;
use crate::io_args::IoArgs;
use crate::paths::same_components;
use crate::schema::{Schema, SchemaV};
use crate::text::{all_digits, dec, digits_value, fmt_u64, lemma_dec_reads_back, from_chars, push_all, push_str, strings, to_chars};
use crate::yaml::{Entry, EntryV, contains_str_key, entries_view, has_str_key};

verus! {

/// Whether two paths are equal as `Path`s, which compare their components.
pub open spec fn same_path(a: Seq<char>, b: Seq<char>) -> bool {
    same_components(a, b)
}

/// `Path::new(a) == Path::new(b)`: true exactly when the two paths have
/// the same components ([`same_path`]); `a//b/` equals `a/./b`, while
/// `./a` differs from `a`.
#[verifier::external_body]
fn paths_equal(a: &str, b: &str) -> (r: bool)
    ensures
        r == same_path(a@, b@),
{
    std::path::Path::new(a) == std::path::Path::new(b)
}

/// The report: a title, the three paths (the output marked when it is the
/// input), the number of fields and of skipped keys, the number of data
/// keys, then each field with whether the input sets it.
pub open spec fn status_text(scheme: Seq<char>, input: Seq<char>, output: Seq<char>, s: SchemaV, data: Seq<EntryV>) -> Seq<Seq<char>> {
    seq![
        "status"@,
        "  scheme:  "@ + scheme,
        "  input:   "@ + input,
        "  output:  "@ + output + if same_path(output, input) { " (= input)"@ } else { Seq::empty() },
        "  fields:  "@ + dec(s.fields.len()) + " (skipped: "@ + dec(s.skipped.len()) + ")"@,
        "  data keys: "@ + dec(data.len()),
    ] + s.fields.map_values(
        |f: crate::schema::FieldV| "    - "@ + f.key + if has_str_key(data, f.key) {
            " (in input)"@
        } else {
            " (missing)"@
        },
    )
}

fn count(n: usize) -> (r: Vec<char>)
    ensures
        r@ == dec(n as nat),
{
    fmt_u64(n as u64)
}

/// The status report of the parsed `schema` and the input `data`, line by line.
pub fn run(args: &IoArgs, schema: &Schema, data: &Vec<Entry>) -> (lines: Vec<String>)
    ensures
        strings(lines@) == status_text(args.scheme@, args.input@, args.output@, schema@, entries_view(data@)),
{
    let mut out: Vec<String> = Vec::new();
    out.push(from_chars(to_chars("status").as_slice()));
    let mut l = to_chars("  scheme:  ");
    push_str(&mut l, args.scheme.as_str());
    out.push(from_chars(l.as_slice()));
    let mut l = to_chars("  input:   ");
    push_str(&mut l, args.input.as_str());
    out.push(from_chars(l.as_slice()));
    let mut l = to_chars("  output:  ");
    push_str(&mut l, args.output.as_str());
    let ghost l_before = l@;
    if paths_equal(args.output.as_str(), args.input.as_str()) {
        push_str(&mut l, " (= input)");
    } else {
        assert(l@ =~= l_before + Seq::<char>::empty());
    }
    out.push(from_chars(l.as_slice()));
    let mut l = to_chars("  fields:  ");
    push_all(&mut l, count(schema.fields.len()).as_slice());
    push_str(&mut l, " (skipped: ");
    push_all(&mut l, count(schema.skipped.len()).as_slice());
    push_str(&mut l, ")");
    out.push(from_chars(l.as_slice()));
    let mut l = to_chars("  data keys: ");
    push_all(&mut l, count(data.len()).as_slice());
    out.push(from_chars(l.as_slice()));
    let ghost head = strings(out@);
    let ghost fv = schema@.fields;
    let ghost dv = entries_view(data@);
    let mut i: usize = 0;
    while i < schema.fields.len()
        invariant
            i <= schema.fields.len(),
            fv == schema@.fields,
            dv == entries_view(data@),
            strings(out@) =~= head + fv.take(i as int).map_values(
                |f: crate::schema::FieldV| "    - "@ + f.key + if has_str_key(dv, f.key) {
                    " (in input)"@
                } else {
                    " (missing)"@
                },
            ),
        decreases schema.fields.len() - i,
    {
        let f = &schema.fields[i];
        let mut l = to_chars("    - ");
        push_str(&mut l, f.key.as_str());
        if contains_str_key(data, &f.key) {
            push_str(&mut l, " (in input)");
        } else {
            push_str(&mut l, " (missing)");
        }
        let ghost b = strings(out@);
        assert(fv[i as int].key == f.key@);
        let ghost item = "    - "@ + fv[i as int].key + if has_str_key(dv, fv[i as int].key) {
            " (in input)"@
        } else {
            " (missing)"@
        };
        assert(l@ == item);
        out.push(from_chars(l.as_slice()));
        assert(strings(out@) =~= b.push(item));
        assert(fv.take(i + 1) =~= fv.take(i as int).push(fv[i as int]));
        i = i + 1;
    }
    assert(fv.take(schema.fields.len() as int) =~= fv);
    out
}

/// `t` is a decimal number: one or more digits whose value is `n`.
pub open spec fn reads_as(t: Seq<char>, n: nat) -> bool {
    t.len() > 0 && all_digits(t) && digits_value(t) == n
}

/// The fields line of the report counts both the schema's fields and the
/// keys it skipped: the two numbers it shows read back as those counts.
pub proof fn law_status_counts_fields_and_skipped(
    scheme: Seq<char>,
    input: Seq<char>,
    output: Seq<char>,
    s: SchemaV,
    data: Seq<EntryV>,
)
    ensures
        exists|f: Seq<char>, k: Seq<char>|
            {
                &&& #[trigger] status_text(scheme, input, output, s, data)[4] == "  fields:  "@ + f + " (skipped: "@ + k + ")"@
                &&& reads_as(f, s.fields.len())
                &&& reads_as(k, s.skipped.len())
            },
{
    lemma_dec_reads_back(s.fields.len());
    lemma_dec_reads_back(s.skipped.len());
    let f = dec(s.fields.len());
    let k = dec(s.skipped.len());
    assert(status_text(scheme, input, output, s, data)[4] == "  fields:  "@ + f + " (skipped: "@ + k + ")"@);
    assert(reads_as(f, s.fields.len()));
    assert(reads_as(k, s.skipped.len()));
}

/// The report has one line per field after the six head lines; the sixth
/// counts the input's keys, and each field line names the field and says
/// whether the input sets it.
pub proof fn law_status_lines(
    scheme: Seq<char>,
    input: Seq<char>,
    output: Seq<char>,
    s: SchemaV,
    data: Seq<EntryV>,
)
    ensures
        status_text(scheme, input, output, s, data).len() == 6 + s.fields.len(),
        exists|d: Seq<char>|
            #[trigger] status_text(scheme, input, output, s, data)[5] == "  data keys: "@ + d && reads_as(d, data.len()),
        forall|i: int|
            0 <= i < s.fields.len() ==> (#[trigger] status_text(scheme, input, output, s, data)[6 + i]) == "    - "@
                + s.fields[i].key + if has_str_key(data, s.fields[i].key) {
                " (in input)"@
            } else {
                " (missing)"@
            },
{
    lemma_dec_reads_back(data.len());
    let t = status_text(scheme, input, output, s, data);
    assert(t[5] == "  data keys: "@ + dec(data.len()));
    assert(reads_as(dec(data.len()), data.len()));
}

} // verus!
