//! The on-disk record format of the index: one JSON object per line, one file
//! per package. The emitter is exact — the emitted line is pinned down
//! character by character — and the line rewriter used for yanking proves
//! that every line it writes is the emission of a record.
//!
//! Field values are restricted to characters that need no JSON escaping
//! (no `"`, no `\`, no control characters); a record that violates this is
//! rejected rather than escaped, so one record always renders as one line.

use vstd::prelude::*;

use crate::git::{Crate, Dependency, DependencyKind};
use vstd::string::StrSliceExecFns;
use vstd::string::StringExecFns;

verus! {

/// Characters allowed inside a quoted JSON string without escaping.
pub open spec fn json_safe_char(c: char) -> bool {
    c != '"' && c != '\\' && (c as u32) >= 0x20
}

pub open spec fn json_safe(s: Seq<char>) -> bool {
    forall|i: int| 0 <= i < s.len() ==> json_safe_char(#[trigger] s[i])
}

/// `"s"`, valid only for `json_safe` contents.
pub open spec fn spec_quoted(s: Seq<char>) -> Seq<char> {
    "\""@ + s + "\""@
}

pub open spec fn spec_bool_json(b: bool) -> Seq<char> {
    if b {
        "true"@
    } else {
        "false"@
    }
}

pub open spec fn spec_opt_bool_json(o: Option<bool>) -> Seq<char> {
    match o {
        None => "null"@,
        Some(b) => spec_bool_json(b),
    }
}

pub open spec fn spec_opt_str_json(o: Option<String>) -> Seq<char> {
    match o {
        None => "null"@,
        Some(s) => spec_quoted(s@),
    }
}

pub open spec fn spec_kind_json(o: Option<DependencyKind>) -> Seq<char> {
    match o {
        None => "null"@,
        Some(DependencyKind::Normal) => "\"normal\""@,
        Some(DependencyKind::Build) => "\"build\""@,
        Some(DependencyKind::Dev) => "\"dev\""@,
    }
}

/// Comma-separated concatenation of the given pieces.
pub open spec fn spec_comma_sep(items: Seq<Seq<char>>) -> Seq<char>
    decreases items.len(),
{
    if items.len() == 0 {
        Seq::empty()
    } else if items.len() == 1 {
        items[0]
    } else {
        spec_comma_sep(items.drop_last()) + ","@ + items.last()
    }
}

/// `["a","b",...]`
pub open spec fn spec_str_array_json(items: Seq<Seq<char>>) -> Seq<char> {
    "["@ + spec_comma_sep(items.map_values(|s: Seq<char>| spec_quoted(s))) + "]"@
}

/// One dependency object, fields in the fixed order the index uses; the
/// `package` field is present only when renamed.
pub open spec fn spec_dep_json(d: Dependency) -> Seq<char> {
    "{\"name\":"@ + spec_quoted(d.name@) + ",\"req\":"@ + spec_quoted(d.req@) + ",\"features\":"@
        + spec_str_array_json(d.features@.map_values(|s: String| s@)) + ",\"optional\":"@
        + spec_bool_json(d.optional) + ",\"default_features\":"@ + spec_bool_json(
        d.default_features,
    ) + ",\"target\":"@ + spec_opt_str_json(d.target) + ",\"kind\":"@ + spec_kind_json(d.kind) + (
    match d.package {
        None => Seq::<char>::empty(),
        Some(p) => ",\"package\":"@ + spec_quoted(p@),
    }) + "}"@
}

/// `"feature":["enables",...]`
pub open spec fn spec_feature_json(kv: (String, Vec<String>)) -> Seq<char> {
    spec_quoted(kv.0@) + ":"@ + spec_str_array_json(kv.1@.map_values(|s: String| s@))
}

/// The whole index line for one record, without the trailing newline.
pub open spec fn spec_crate_line(c: Crate) -> Seq<char> {
    "{\"name\":"@ + spec_quoted(c.name@) + ",\"vers\":"@ + spec_quoted(c.vers@) + ",\"deps\":["@
        + spec_comma_sep(c.deps@.map_values(|d: Dependency| spec_dep_json(d))) + "],\"cksum\":"@
        + spec_quoted(c.cksum@) + ",\"features\":{"@ + spec_comma_sep(
        c.features@.map_values(|kv: (String, Vec<String>)| spec_feature_json(kv)),
    ) + "},\"yanked\":"@ + spec_opt_bool_json(c.yanked) + ",\"links\":"@ + spec_opt_str_json(
        c.links,
    ) + "}"@
}

/// Whether every string field of a dependency is emittable unescaped.
pub open spec fn dep_json_safe(d: Dependency) -> bool {
    &&& json_safe(d.name@)
    &&& json_safe(d.req@)
    &&& forall|i: int| 0 <= i < d.features@.len() ==> json_safe((#[trigger] d.features@[i])@)
    &&& (d.target matches Some(t) ==> json_safe(t@))
    &&& (d.package matches Some(p) ==> json_safe(p@))
}

/// Whether every string field of a record is emittable unescaped.
pub open spec fn crate_json_safe(c: Crate) -> bool {
    &&& json_safe(c.name@)
    &&& json_safe(c.vers@)
    &&& forall|i: int| 0 <= i < c.deps@.len() ==> dep_json_safe(#[trigger] c.deps@[i])
    &&& json_safe(c.cksum@)
    &&& forall|i: int|
        0 <= i < c.features@.len() ==> json_safe((#[trigger] c.features@[i]).0@) && (forall|j: int|
            0 <= j < c.features@[i].1@.len() ==> json_safe((#[trigger] c.features@[i].1@[j])@))
    &&& (c.links matches Some(l) ==> json_safe(l@))
}

/// Scan a string for characters that would need JSON escaping.
pub fn is_json_safe(s: &str) -> (r: bool)
    ensures
        r == json_safe(s@),
{
    let n = s.unicode_len();
    let mut i: usize = 0;
    while i < n
        invariant
            0 <= i <= n,
            n == s@.len(),
            forall|j: int| 0 <= j < i ==> json_safe_char(#[trigger] s@[j]),
        decreases n - i,
    {
        let c = s.get_char(i);
        if c == '"' || c == '\\' || (c as u32) < 0x20 {
            return false;
        }
        i += 1;
    }
    true
}

/// Append `"s"`; reports failure (and appends nothing) if `s` needs escaping.
fn push_quoted(out: &mut String, s: &str) -> (r: bool)
    ensures
        r == json_safe(s@),
        r ==> final(out)@ == old(out)@ + spec_quoted(s@),
        !r ==> final(out)@ == old(out)@,
{
    if !is_json_safe(s) {
        return false;
    }
    out.append("\"");
    out.append(s);
    out.append("\"");
    proof {
        assert(out@ =~= old(out)@ + spec_quoted(s@));
    }
    true
}

fn push_bool(out: &mut String, b: bool)
    ensures
        final(out)@ == old(out)@ + spec_bool_json(b),
{
    if b {
        out.append("true");
    } else {
        out.append("false");
    }
}

fn push_opt_str(out: &mut String, o: &Option<String>) -> (r: bool)
    ensures
        r == (o matches Some(s) ==> json_safe(s@)),
        r ==> final(out)@ == old(out)@ + spec_opt_str_json(*o),
        !r ==> final(out)@ == old(out)@,
{
    match o {
        None => {
            out.append("null");
            true
        },
        Some(s) => push_quoted(out, s.as_str()),
    }
}

/// Append `["a","b",...]` for the given strings; nothing on failure.
fn push_str_array(out: &mut String, items: &Vec<String>) -> (r: bool)
    ensures
        r == (forall|i: int| 0 <= i < items@.len() ==> json_safe((#[trigger] items@[i])@)),
        r ==> final(out)@ == old(out)@ + spec_str_array_json(
            items@.map_values(|s: String| s@),
        ),
        !r ==> final(out)@ == old(out)@,
{
    let mut i: usize = 0;
    let mut acc = String::new();
    let n = items.len();
    while i < n
        invariant
            0 <= i <= n,
            n == items@.len(),
            forall|j: int| 0 <= j < i ==> json_safe((#[trigger] items@[j])@),
            acc@ == spec_comma_sep(
                items@.map_values(|s: String| s@).take(i as int).map_values(
                    |s: Seq<char>| spec_quoted(s),
                ),
            ),
        decreases n - i,
    {
        if i > 0 {
            acc.append(",");
        }
        if !push_quoted(&mut acc, items[i].as_str()) {
            return false;
        }
        proof {
            lemma_comma_sep_step(
                items@.map_values(|s: String| s@).map_values(|s: Seq<char>| spec_quoted(s)),
                i as int,
            );
            assert(items@.map_values(|s: String| s@).take(i as int).map_values(
                |s: Seq<char>| spec_quoted(s),
            ) =~= items@.map_values(|s: String| s@).map_values(
                |s: Seq<char>| spec_quoted(s),
            ).take(i as int));
            assert(items@.map_values(|s: String| s@).take(i as int + 1).map_values(
                |s: Seq<char>| spec_quoted(s),
            ) =~= items@.map_values(|s: String| s@).map_values(
                |s: Seq<char>| spec_quoted(s),
            ).take(i as int + 1));
        }
        i += 1;
    }
    out.append("[");
    out.append(acc.as_str());
    out.append("]");
    proof {
        assert(items@.map_values(|s: String| s@).take(n as int) =~= items@.map_values(
            |s: String| s@,
        ));
        assert(out@ =~= old(out)@ + spec_str_array_json(items@.map_values(|s: String| s@)));
    }
    true
}

/// Why an index file or record could not be processed.
#[derive(PartialEq, Eq, Structural, Clone, Copy, Debug)]
pub enum IndexError {
    /// A record field holds a character the line format cannot carry.
    InvalidRecord,
    /// The on-disk record file has a line that is no rendering of a record.
    CorruptFile,
}

/// Append one dependency object; appends nothing and reports failure if any
/// of its string fields needs escaping.
fn push_dep(out: &mut String, d: &Dependency) -> (r: bool)
    ensures
        r == dep_json_safe(*d),
        r ==> final(out)@ == old(out)@ + spec_dep_json(*d),
        !r ==> final(out)@ == old(out)@,
{
    let mut t = String::new();
    t.append("{\"name\":");
    if !push_quoted(&mut t, d.name.as_str()) {
        return false;
    }
    t.append(",\"req\":");
    if !push_quoted(&mut t, d.req.as_str()) {
        return false;
    }
    t.append(",\"features\":");
    if !push_str_array(&mut t, &d.features) {
        return false;
    }
    t.append(",\"optional\":");
    push_bool(&mut t, d.optional);
    t.append(",\"default_features\":");
    push_bool(&mut t, d.default_features);
    t.append(",\"target\":");
    if !push_opt_str(&mut t, &d.target) {
        return false;
    }
    t.append(",\"kind\":");
    match d.kind {
        None => t.append("null"),
        Some(DependencyKind::Normal) => t.append("\"normal\""),
        Some(DependencyKind::Build) => t.append("\"build\""),
        Some(DependencyKind::Dev) => t.append("\"dev\""),
    }
    match &d.package {
        None => {},
        Some(p) => {
            t.append(",\"package\":");
            if !push_quoted(&mut t, p.as_str()) {
                return false;
            }
        },
    }
    t.append("}");
    out.append(t.as_str());
    proof {
        assert(out@ =~= old(out)@ + spec_dep_json(*d));
    }
    true
}

/// Append one `"feature":["enables",...]` member.
fn push_feature(out: &mut String, key: &String, vals: &Vec<String>) -> (r: bool)
    ensures
        r == (json_safe(key@) && (forall|j: int|
            0 <= j < vals@.len() ==> json_safe((#[trigger] vals@[j])@))),
        r ==> final(out)@ == old(out)@ + spec_quoted(key@) + ":"@ + spec_str_array_json(
            vals@.map_values(|s: String| s@),
        ),
        !r ==> final(out)@ == old(out)@,
{
    let mut t = String::new();
    if !push_quoted(&mut t, key.as_str()) {
        return false;
    }
    t.append(":");
    if !push_str_array(&mut t, vals) {
        return false;
    }
    out.append(t.as_str());
    proof {
        assert(out@ =~= old(out)@ + spec_quoted(key@) + ":"@ + spec_str_array_json(
            vals@.map_values(|s: String| s@),
        ));
    }
    true
}

/// Render one record as its index line (no trailing newline). Succeeds
/// exactly when every string field of the record is free of characters that
/// would need JSON escaping.
pub fn emit_crate_line(c: &Crate) -> (r: Result<String, IndexError>)
    ensures
        r matches Ok(l) ==> l@ == spec_crate_line(*c),
        r is Ok <==> crate_json_safe(*c),
        r matches Err(e) ==> e == IndexError::InvalidRecord,
{
    let mut t = String::new();
    t.append("{\"name\":");
    if !push_quoted(&mut t, c.name.as_str()) {
        return Err(IndexError::InvalidRecord);
    }
    t.append(",\"vers\":");
    if !push_quoted(&mut t, c.vers.as_str()) {
        return Err(IndexError::InvalidRecord);
    }
    t.append(",\"deps\":[");
    let mut acc = String::new();
    let n = c.deps.len();
    let mut i: usize = 0;
    while i < n
        invariant
            0 <= i <= n,
            n == c.deps@.len(),
            forall|j: int| 0 <= j < i ==> dep_json_safe(#[trigger] c.deps@[j]),
            acc@ == spec_comma_sep(
                c.deps@.map_values(|d: Dependency| spec_dep_json(d)).take(i as int),
            ),
        decreases n - i,
    {
        if i > 0 {
            acc.append(",");
        }
        if !push_dep(&mut acc, &c.deps[i]) {
            return Err(IndexError::InvalidRecord);
        }
        proof {
            lemma_comma_sep_step(c.deps@.map_values(|d: Dependency| spec_dep_json(d)), i as int);
        }
        i += 1;
    }
    proof {
        assert(c.deps@.map_values(|d: Dependency| spec_dep_json(d)).take(n as int)
            =~= c.deps@.map_values(|d: Dependency| spec_dep_json(d)));
    }
    t.append(acc.as_str());
    t.append("],\"cksum\":");
    if !push_quoted(&mut t, c.cksum.as_str()) {
        return Err(IndexError::InvalidRecord);
    }
    t.append(",\"features\":{");
    let mut facc = String::new();
    let fn_ = c.features.len();
    let mut k: usize = 0;
    while k < fn_
        invariant
            0 <= k <= fn_,
            fn_ == c.features@.len(),
            forall|j: int|
                0 <= j < k ==> json_safe((#[trigger] c.features@[j]).0@) && (forall|m: int|
                    0 <= m < c.features@[j].1@.len() ==> json_safe(
                        (#[trigger] c.features@[j].1@[m])@,
                    )),
            facc@ == spec_comma_sep(
                c.features@.map_values(|kv: (String, Vec<String>)| spec_feature_json(kv)).take(
                    k as int,
                ),
            ),
        decreases fn_ - k,
    {
        if k > 0 {
            facc.append(",");
        }
        if !push_feature(&mut facc, &c.features[k].0, &c.features[k].1) {
            return Err(IndexError::InvalidRecord);
        }
        proof {
            lemma_comma_sep_step(
                c.features@.map_values(|kv: (String, Vec<String>)| spec_feature_json(kv)),
                k as int,
            );
            assert(facc@ =~= spec_comma_sep(
                c.features@.map_values(|kv: (String, Vec<String>)| spec_feature_json(kv)).take(
                    k as int + 1,
                ),
            ));
        }
        k += 1;
    }
    proof {
        assert(c.features@.map_values(|kv: (String, Vec<String>)| spec_feature_json(kv)).take(
            fn_ as int,
        ) =~= c.features@.map_values(|kv: (String, Vec<String>)| spec_feature_json(kv)));
    }
    t.append(facc.as_str());
    t.append("},\"yanked\":");
    match c.yanked {
        None => t.append("null"),
        Some(b) => push_bool(&mut t, b),
    }
    t.append(",\"links\":");
    if !push_opt_str(&mut t, &c.links) {
        return Err(IndexError::InvalidRecord);
    }
    t.append("}");
    proof {
        assert(t@ =~= spec_crate_line(*c));
    }
    Ok(t)
}

/// Compare two string slices character by character.
pub fn str_equal(a: &str, b: &str) -> (r: bool)
    ensures
        r == (a@ == b@),
{
    let n = a.unicode_len();
    if n != b.unicode_len() {
        return false;
    }
    let mut i: usize = 0;
    while i < n
        invariant
            0 <= i <= n,
            n == a@.len() == b@.len(),
            forall|j: int| 0 <= j < i ==> a@[j] == b@[j],
        decreases n - i,
    {
        if a.get_char(i) != b.get_char(i) {
            return false;
        }
        i += 1;
    }
    proof {
        assert(a@ =~= b@);
    }
    true
}

/// Whether the input carries `lit` at position `i`.
pub open spec fn spec_lit_at(s: Seq<char>, i: int, lit: Seq<char>) -> bool {
    i + lit.len() <= s.len() && s.subrange(i, i + lit.len()) == lit
}

/// Position after `lit` exactly when the input carries `lit` at `i`.
fn expect_lit(s: &str, i: usize, lit: &str) -> (r: Option<usize>)
    requires
        i <= s@.len(),
    ensures
        r matches Some(j) ==> i <= j <= s@.len() && j == i + lit@.len(),
        r is Some <==> spec_lit_at(s@, i as int, lit@),
{
    let n = s.unicode_len();
    let m = lit.unicode_len();
    if n - i < m {
        return None;
    }
    let mut k: usize = 0;
    while k < m
        invariant
            0 <= k <= m,
            m == lit@.len(),
            n == s@.len(),
            i + m <= n,
            forall|j: int| 0 <= j < k ==> s@[i + j] == lit@[j],
        decreases m - k,
    {
        if s.get_char(i + k) != lit.get_char(k) {
            proof {
                if spec_lit_at(s@, i as int, lit@) {
                    assert(s@.subrange(i as int, i + m)[k as int] == lit@[k as int]);
                }
            }
            return None;
        }
        k += 1;
    }
    proof {
        assert(s@.subrange(i as int, i + m) =~= lit@);
    }
    Some(i + m)
}

/// Whether the input carries a quoted escape-free string at position `i`.
pub open spec fn spec_quoted_at(s: Seq<char>, i: int) -> bool {
    exists|x: Seq<char>|
        json_safe(x) && i + x.len() + 2 <= s.len() && s.subrange(i, i + x.len() + 2)
            == #[trigger] spec_quoted(x)
}

/// Read a quoted string starting at `i`: the contents run to the next `"`
/// and must be free of characters the emitter would escape.
fn parse_string(s: &str, i: usize) -> (r: Option<(String, usize)>)
    requires
        i <= s@.len(),
    ensures
        r matches Some(p) ==> i < p.1 <= s@.len() && json_safe(p.0@) && s@.subrange(
            i as int,
            p.1 as int,
        ) == spec_quoted(p.0@),
        spec_quoted_at(s@, i as int) ==> r is Some,
{
    proof {
        reveal_strlit("\"");
    }
    let ghost gx: Seq<char> = if spec_quoted_at(s@, i as int) {
        choose|x: Seq<char>|
            json_safe(x) && i + x.len() + 2 <= s@.len() && s@.subrange(i as int, i + x.len() + 2)
                == #[trigger] spec_quoted(x)
    } else {
        Seq::empty()
    };
    proof {
        if spec_quoted_at(s@, i as int) {
            assert(s@.subrange(i as int, i + gx.len() + 2)[0] == '"');
            assert forall|m: int| i + 1 <= m < i + 1 + gx.len() implies s@[m] != '"'
                && json_safe_char(s@[m]) by {
                assert(s@.subrange(i as int, i + gx.len() + 2)[m - i] == gx[m - i - 1]);
                assert(json_safe_char(gx[m - i - 1]));
            }
            assert(s@.subrange(i as int, i + gx.len() + 2)[gx.len() as int + 1] == '"');
            assert(s@[i + 1 + gx.len()] == '"');
        }
    }
    let n = s.unicode_len();
    if i >= n || s.get_char(i) != '"' {
        return None;
    }
    let mut j: usize = i + 1;
    while j < n
        invariant
            i < j <= n,
            n == s@.len(),
            s@[i as int] == '"',
            forall|m: int| i + 1 <= m < j ==> s@[m] != '"' && json_safe_char(s@[m]),
            spec_quoted_at(s@, i as int) ==> j <= i + 1 + gx.len() && (forall|m: int|
                i + 1 <= m < i + 1 + gx.len() ==> s@[m] != '"' && json_safe_char(s@[m]))
                && s@[i + 1 + gx.len()] == '"' && i + gx.len() + 2 <= n,
        decreases n - j,
    {
        let c = s.get_char(j);
        if c == '"' {
            let contents = s.substring_char(i + 1, j).to_owned();
            proof {
                reveal_strlit("\"");
                assert(s@.subrange(i as int, j + 1) =~= spec_quoted(s@.subrange(i + 1, j as int)));
            }
            return Some((contents, j + 1));
        }
        if c == '\\' || (c as u32) < 0x20 {
            proof {
                if spec_quoted_at(s@, i as int) {
                    assert(j < i + 1 + gx.len());
                    assert(json_safe_char(s@[j as int]));
                }
            }
            return None;
        }
        j += 1;
    }
    proof {
        if spec_quoted_at(s@, i as int) {
            assert(s@[i + 1 + gx.len()] == '"');
        }
    }
    None
}

fn parse_bool(s: &str, i: usize) -> (r: Option<(bool, usize)>)
    requires
        i <= s@.len(),
    ensures
        r matches Some(p) ==> i <= p.1 <= s@.len() && s@.subrange(i as int, p.1 as int)
            == spec_bool_json(p.0),
        (exists|b: bool| spec_lit_at(s@, i as int, #[trigger] spec_bool_json(b))) ==> r is Some,
{
    proof {
        reveal_strlit("true");
        reveal_strlit("false");
    }
    match expect_lit(s, i, "true") {
        Some(j) => Some((true, j)),
        None => match expect_lit(s, i, "false") {
            Some(j) => Some((false, j)),
            None => {
                proof {
                    assert(spec_bool_json(true) == "true"@);
                    assert(spec_bool_json(false) == "false"@);
                }
                None
            },
        },
    }
}

fn parse_opt_str(s: &str, i: usize) -> (r: Option<(Option<String>, usize)>)
    requires
        i <= s@.len(),
    ensures
        r matches Some(p) ==> i <= p.1 <= s@.len() && s@.subrange(i as int, p.1 as int)
            == spec_opt_str_json(p.0) && (p.0 matches Some(v) ==> json_safe(v@)),
        spec_lit_at(s@, i as int, "null"@) || spec_quoted_at(s@, i as int) ==> r is Some,
{
    proof {
        reveal_strlit("null");
    }
    match expect_lit(s, i, "null") {
        Some(j) => Some((None, j)),
        None => match parse_string(s, i) {
            Some((v, j)) => Some((Some(v), j)),
            None => None,
        },
    }
}

fn parse_kind(s: &str, i: usize) -> (r: Option<(Option<DependencyKind>, usize)>)
    requires
        i <= s@.len(),
    ensures
        r matches Some(p) ==> i <= p.1 <= s@.len() && s@.subrange(i as int, p.1 as int)
            == spec_kind_json(p.0),
        (exists|k: Option<DependencyKind>| spec_lit_at(s@, i as int, #[trigger] spec_kind_json(k)))
            ==> r is Some,
{
    proof {
        reveal_strlit("null");
        reveal_strlit("\"normal\"");
        reveal_strlit("\"build\"");
        reveal_strlit("\"dev\"");
    }
    match expect_lit(s, i, "null") {
        Some(j) => Some((None, j)),
        None => match expect_lit(s, i, "\"normal\"") {
            Some(j) => Some((Some(DependencyKind::Normal), j)),
            None => match expect_lit(s, i, "\"build\"") {
                Some(j) => Some((Some(DependencyKind::Build), j)),
                None => match expect_lit(s, i, "\"dev\"") {
                    Some(j) => Some((Some(DependencyKind::Dev), j)),
                    None => {
                        proof {
                            if exists|k: Option<DependencyKind>|
                                spec_lit_at(s@, i as int, #[trigger] spec_kind_json(k)) {
                                let k = choose|k: Option<DependencyKind>|
                                    spec_lit_at(s@, i as int, #[trigger] spec_kind_json(k));
                                assert(spec_lit_at(s@, i as int, spec_kind_json(k)));
                                assert(false);
                            }
                        }
                        None
                    },
                },
            },
        },
    }
}

/// The pieces quoted, one by one.
pub open spec fn spec_quoted_items(items: Seq<Seq<char>>) -> Seq<Seq<char>> {
    items.map_values(|x: Seq<char>| spec_quoted(x))
}

/// What remains of an array whose first `m` items are consumed: the
/// unconsumed items, separated by commas, then the closing bracket.
pub open spec fn spec_array_tail(items: Seq<Seq<char>>, m: int) -> Seq<char> {
    spec_comma_sep(spec_quoted_items(items.skip(m))) + "]"@
}

/// A text carrying `a + b` at `j` carries `a` at `j` and `b` right after.
proof fn lemma_lit_at_split(s: Seq<char>, j: int, a: Seq<char>, b: Seq<char>)
    requires
        0 <= j,
        spec_lit_at(s, j, a + b),
    ensures
        spec_lit_at(s, j, a),
        spec_lit_at(s, j + a.len(), b),
{
    assert((a + b).len() == a.len() + b.len());
    assert(s.subrange(j, j + (a + b).len() as int) == a + b);
    assert(s.subrange(j, j + a.len() as int) =~= a) by {
        assert forall|k: int| 0 <= k < a.len() implies #[trigger] s.subrange(
            j,
            j + a.len() as int,
        )[k] == a[k] by {
            assert(s.subrange(j, j + (a + b).len() as int)[k] == (a + b)[k]);
            assert((a + b)[k] == a[k]);
            assert(s.subrange(j, j + (a + b).len() as int)[k] == s[j + k]);
            assert(s.subrange(j, j + a.len() as int)[k] == s[j + k]);
        }
    }
    assert(s.subrange(j + a.len(), j + a.len() + b.len()) =~= b) by {
        assert forall|k: int| 0 <= k < b.len() implies #[trigger] s.subrange(
            j + a.len(),
            j + a.len() + b.len(),
        )[k] == b[k] by {
            assert(s.subrange(j, j + (a + b).len() as int)[a.len() + k] == (a + b)[a.len() + k]);
            assert((a + b)[a.len() + k] == b[k]);
            assert(s.subrange(j, j + (a + b).len() as int)[a.len() + k] == s[j + a.len() + k]);
            assert(s.subrange(j + a.len(), j + a.len() + b.len())[k] == s[j + a.len() + k]);
        }
    }
}

/// A parsed boolean and a known boolean at the same position agree.
proof fn lemma_bool_align(s: Seq<char>, j: int, j2: int, v: bool, t: bool)
    requires
        0 <= j <= j2 <= s.len(),
        s.subrange(j, j2) == spec_bool_json(v),
        spec_lit_at(s, j, spec_bool_json(t)),
    ensures
        v == t,
        j2 == j + spec_bool_json(t).len(),
{
    reveal_strlit("true");
    reveal_strlit("false");
    if v != t {
        assert(s.subrange(j, j2).len() == j2 - j);
        assert(s.subrange(j, j + spec_bool_json(t).len() as int) == spec_bool_json(t));
        assert(s.subrange(j, j2)[0] == s[j]);
        assert(s.subrange(j, j + spec_bool_json(t).len() as int)[0] == s[j]);
        assert(s.subrange(j, j2)[0] == spec_bool_json(v)[0]);
        assert(s.subrange(j, j + spec_bool_json(t).len() as int)[0] == spec_bool_json(t)[0]);
        assert(spec_bool_json(v)[0] != spec_bool_json(t)[0]);
        assert(false);
    }
}

/// A parsed kind and a known kind at the same position agree.
proof fn lemma_kind_align(s: Seq<char>, j: int, j2: int, v: Option<DependencyKind>, t: Option<
    DependencyKind,
>)
    requires
        0 <= j <= j2 <= s.len(),
        s.subrange(j, j2) == spec_kind_json(v),
        spec_lit_at(s, j, spec_kind_json(t)),
    ensures
        spec_kind_json(v) == spec_kind_json(t),
        j2 == j + spec_kind_json(t).len(),
{
    reveal_strlit("null");
    reveal_strlit("\"normal\"");
    reveal_strlit("\"build\"");
    reveal_strlit("\"dev\"");
    if spec_kind_json(v) != spec_kind_json(t) {
        assert(s.subrange(j, j2).len() == j2 - j);
        assert(s.subrange(j, j + spec_kind_json(t).len() as int) == spec_kind_json(t));
        assert(s.subrange(j, j2)[0] == s[j]);
        assert(s.subrange(j, j + spec_kind_json(t).len() as int)[0] == s[j]);
        assert(s.subrange(j, j2)[0] == spec_kind_json(v)[0]);
        assert(s.subrange(j, j + spec_kind_json(t).len() as int)[0] == spec_kind_json(t)[0]);
        if spec_kind_json(v)[0] == '"' && spec_kind_json(t)[0] == '"' {
            assert(s.subrange(j, j2)[1] == s[j + 1]);
            assert(s.subrange(j, j + spec_kind_json(t).len() as int)[1] == s[j + 1]);
            assert(s.subrange(j, j2)[1] == spec_kind_json(v)[1]);
            assert(s.subrange(j, j + spec_kind_json(t).len() as int)[1] == spec_kind_json(t)[1]);
            assert(spec_kind_json(v)[1] != spec_kind_json(t)[1]);
        }
        assert(false);
    }
}

/// A parsed optional string and a known one at the same position agree.
proof fn lemma_opt_str_align(s: Seq<char>, j: int, j2: int, v: Option<Seq<char>>, t: Option<
    Seq<char>,
>)
    requires
        0 <= j <= j2 <= s.len(),
        v matches Some(x) ==> json_safe(x),
        t matches Some(x) ==> json_safe(x),
        s.subrange(j, j2) == (match v {
            None => "null"@,
            Some(x) => spec_quoted(x),
        }),
        spec_lit_at(
            s,
            j,
            (match t {
                None => "null"@,
                Some(x) => spec_quoted(x),
            }),
        ),
    ensures
        match (v, t) {
            (None, None) => j2 == j + 4,
            (Some(x), Some(y)) => x == y && j2 == j + y.len() + 2,
            _ => false,
        },
{
    reveal_strlit("null");
    reveal_strlit("\"");
    match (v, t) {
        (None, None) => {
            assert(j2 == j + 4);
        },
        (Some(x), Some(y)) => {
            lemma_quoted_align(s, j, j2, x, y);
        },
        (None, Some(y)) => {
            assert(s.subrange(j, j2).len() == j2 - j);
            assert(s.subrange(j, j + spec_quoted(y).len() as int) == spec_quoted(y));
            assert(s.subrange(j, j2)[0] == s[j]);
            assert(s.subrange(j, j + spec_quoted(y).len() as int)[0] == s[j]);
            assert(s.subrange(j, j2)[0] == 'n');
            assert(s.subrange(j, j + spec_quoted(y).len() as int)[0] == '"');
            assert(false);
        },
        (Some(x), None) => {
            assert(s.subrange(j, j2).len() == j2 - j);
            assert(s.subrange(j, j + 4) == "null"@);
            assert(s.subrange(j, j2)[0] == s[j]);
            assert(s.subrange(j, j + 4)[0] == s[j]);
            assert(s.subrange(j, j2)[0] == '"');
            assert(s.subrange(j, j + 4)[0] == 'n');
            assert(false);
        },
    }
}

/// Consuming one more piece extends what has been read.
proof fn lemma_consume(s: Seq<char>, i: int, j: int, j2: int, done: Seq<char>, piece: Seq<char>)
    requires
        0 <= i <= j <= j2 <= s.len(),
        s.subrange(i, j) == done,
        s.subrange(j, j2) == piece,
    ensures
        s.subrange(i, j2) == done + piece,
{
    assert(s.subrange(i, j2) =~= done + piece);
}

/// A parsed quoted string and a known quoted string at the same position
/// are the same string and end at the same place.
proof fn lemma_quoted_align(s: Seq<char>, j: int, j2: int, v: Seq<char>, t: Seq<char>)
    requires
        0 <= j <= j2 <= s.len(),
        json_safe(v),
        json_safe(t),
        s.subrange(j, j2) == spec_quoted(v),
        spec_lit_at(s, j, spec_quoted(t)),
    ensures
        v == t,
        j2 == j + spec_quoted(t).len(),
        j2 == j + t.len() + 2,
{
    reveal_strlit("\"");
    let n = s.len() as int;
    assert(s.subrange(j, n) =~= spec_quoted(v) + s.subrange(j2, n));
    assert(s.subrange(j, n) =~= spec_quoted(t) + s.subrange(j + spec_quoted(t).len() as int, n))
        by {
        assert(s.subrange(j, j + spec_quoted(t).len() as int) == spec_quoted(t));
    }
    lemma_quoted_prefix_deterministic(
        v,
        t,
        s.subrange(j2, n),
        s.subrange(j + spec_quoted(t).len() as int, n),
    );
}

/// Read `["a","b",...]` starting at `i`. When the caller knows what array
/// the input carries there, the parse succeeds and ends exactly after it.
#[verifier::rlimit(100)]
fn parse_str_array(s: &str, i: usize, w: Ghost<Option<Seq<Seq<char>>>>) -> (r: Option<
    (Vec<String>, usize),
>)
    requires
        i <= s@.len(),
        w@ matches Some(items) ==> (forall|k: int|
            0 <= k < items.len() ==> json_safe(#[trigger] items[k])) && spec_lit_at(
            s@,
            i as int,
            spec_str_array_json(items),
        ),
    ensures
        r matches Some(p) ==> i <= p.1 <= s@.len() && (forall|k: int|
            0 <= k < p.0@.len() ==> json_safe((#[trigger] p.0@[k])@)) && s@.subrange(
            i as int,
            p.1 as int,
        ) == spec_str_array_json(p.0@.map_values(|v: String| v@)),
        w@ matches Some(items) ==> (r matches Some(p) && p.0@.map_values(|v: String| v@) == items
            && p.1 == i + spec_str_array_json(items).len()),
{
    proof {
        reveal_strlit("[");
        reveal_strlit("]");
        reveal_strlit(",");
    }
    let ghost has = w@ is Some;
    let ghost gitems: Seq<Seq<char>> = match w@ {
        Some(items) => items,
        None => Seq::empty(),
    };
    let ghost garr = spec_str_array_json(gitems);
    proof {
        if has {
            assert(spec_lit_at(s@, i as int, garr));
            assert(s@.subrange(i as int, i + garr.len() as int)[0] == '[');
            assert(s@.subrange(i as int, i + 1) =~= "["@);
            assert(s@.subrange(i + 1, i + garr.len() as int) =~= spec_array_tail(gitems, 0)) by {
                assert(gitems.skip(0) =~= gitems);
                assert(spec_array_tail(gitems, 0).len() == garr.len() - 1);
                assert forall|k: int| 0 <= k < garr.len() - 1 implies s@.subrange(
                    i + 1,
                    i + garr.len() as int,
                )[k] == spec_array_tail(gitems, 0)[k] by {
                    assert(s@.subrange(i as int, i + garr.len() as int)[k + 1] == garr[k + 1]);
                    assert(garr[k + 1] == spec_array_tail(gitems, 0)[k]);
                }
            }
        }
    }
    let n = s.unicode_len();
    let mut j = match expect_lit(s, i, "[") {
        Some(j) => j,
        None => {
            return None;
        },
    };
    let mut out: Vec<String> = Vec::new();
    proof {
        if has && gitems.len() == 0 {
            assert(spec_comma_sep(spec_quoted_items(gitems.skip(0))) == Seq::<char>::empty());
            assert(s@.subrange(j as int, j + 1) =~= "]"@);
        }
    }
    match expect_lit(s, j, "]") {
        Some(k) => {
            proof {
                assert(out@.map_values(|v: String| v@) =~= Seq::<Seq<char>>::empty());
                assert(spec_quoted_items(Seq::empty()) =~= Seq::<Seq<char>>::empty());
                assert(s@.subrange(i as int, k as int) =~= spec_str_array_json(
                    out@.map_values(|v: String| v@),
                ));
                if has {
                    if gitems.len() > 0 {
                        let tail = spec_array_tail(gitems, 0);
                        lemma_comma_sep_front(spec_quoted_items(gitems.skip(0)));
                        assert(spec_quoted_items(gitems.skip(0))[0] == spec_quoted(gitems[0]));
                        reveal_strlit("\"");
                        assert(spec_quoted(gitems[0]).len() == gitems[0].len() + 2);
                        assert(tail.subrange(0, spec_quoted(gitems[0]).len() as int)
                            =~= spec_quoted(gitems[0]));
                        assert(s@.subrange(j as int, j + spec_quoted(gitems[0]).len() as int)
                            =~= spec_quoted(gitems[0])) by {
                            assert(s@.subrange(j as int, j + tail.len() as int) == tail);
                        }
                        assert(s@.subrange(
                            j as int,
                            j + spec_quoted(gitems[0]).len() as int,
                        )[0] == '"');
                        assert(s@.subrange(j as int, j + 1) == "]"@);
                        assert(s@.subrange(j as int, j + 1)[0] == "]"@[0]);
                        assert(false);
                    }
                    assert(out@.map_values(|v: String| v@) =~= gitems);
                    assert(spec_str_array_json(gitems).len() == 2);
                }
            }
            return Some((out, k));
        },
        None => {},
    }
    proof {
        if has {
            if gitems.len() == 0 {
                assert(false);
            }
        }
    }
    loop
        invariant
            i < j <= n,
            n == s@.len(),
            forall|k: int| 0 <= k < out@.len() ==> json_safe((#[trigger] out@[k])@),
            out@.len() == 0 ==> s@.subrange(i as int, j as int) == "["@,
            out@.len() > 0 ==> s@.subrange(i as int, j as int) == "["@ + spec_comma_sep(
                spec_quoted_items(out@.map_values(|v: String| v@)),
            ) + ","@,
            has == (w@ is Some),
            has ==> w@ == Some(gitems),
            has ==> (forall|k: int| 0 <= k < gitems.len() ==> json_safe(#[trigger] gitems[k])),
            has ==> out@.len() < gitems.len() && spec_lit_at(
                s@,
                j as int,
                spec_array_tail(gitems, out@.len() as int),
            ) && (forall|k: int| 0 <= k < out@.len() ==> (#[trigger] out@[k])@ == gitems[k]),
        decreases n - j,
    {
        let ghost m = out@.len() as int;
        proof {
            reveal_strlit("[");
            reveal_strlit("]");
            reveal_strlit(",");
            reveal_strlit("\"");
            if has {
                lemma_comma_sep_front(spec_quoted_items(gitems.skip(m)));
                assert(spec_quoted_items(gitems.skip(m))[0] == spec_quoted(gitems[m]));
                let tail = spec_array_tail(gitems, m);
                assert(tail.subrange(0, spec_quoted(gitems[m]).len() as int) =~= spec_quoted(
                    gitems[m],
                ));
                assert(s@.subrange(j as int, j + spec_quoted(gitems[m]).len() as int)
                    =~= spec_quoted(gitems[m])) by {
                    assert(s@.subrange(j as int, j + tail.len() as int) == tail);
                }
                assert(json_safe(gitems[m]));
                assert(spec_quoted(gitems[m]).len() == gitems[m].len() + 2);
                assert(j + gitems[m].len() + 2 <= n);
                assert(spec_quoted_at(s@, j as int));
            }
        }
        let (item, j2) = match parse_string(s, j) {
            Some(p) => p,
            None => {
                return None;
            },
        };
        proof {
            if has {
                let tail = spec_array_tail(gitems, m);
                assert(s@.subrange(j as int, n as int) =~= spec_quoted(item@) + s@.subrange(
                    j2 as int,
                    n as int,
                )) by {
                    assert(s@.subrange(j as int, j2 as int) == spec_quoted(item@));
                }
                assert(s@.subrange(j as int, n as int) =~= spec_quoted(gitems[m]) + s@.subrange(
                    j + spec_quoted(gitems[m]).len() as int,
                    n as int,
                )) by {
                    assert(s@.subrange(j as int, j + spec_quoted(gitems[m]).len() as int)
                        == spec_quoted(gitems[m]));
                }
                lemma_quoted_prefix_deterministic(
                    item@,
                    gitems[m],
                    s@.subrange(j2 as int, n as int),
                    s@.subrange(j + spec_quoted(gitems[m]).len() as int, n as int),
                );
                assert(item@ == gitems[m]);
                assert(j2 == j + spec_quoted(gitems[m]).len());
                let rest = if m + 1 < gitems.len() {
                    ","@ + spec_comma_sep(spec_quoted_items(gitems.skip(m + 1)))
                } else {
                    Seq::<char>::empty()
                };
                assert(spec_quoted_items(gitems.skip(m)).skip(1) =~= spec_quoted_items(
                    gitems.skip(m + 1),
                )) by {
                    assert forall|k: int|
                        0 <= k < gitems.skip(m).len() - 1 implies spec_quoted_items(
                        gitems.skip(m),
                    ).skip(1)[k] == spec_quoted_items(gitems.skip(m + 1))[k] by {
                        assert(gitems.skip(m)[k + 1] == gitems[m + 1 + k]);
                        assert(gitems.skip(m + 1)[k] == gitems[m + 1 + k]);
                    }
                }
                assert(tail =~= spec_quoted(gitems[m]) + (rest + "]"@));
                assert(s@.subrange(j2 as int, j + tail.len() as int) =~= rest + "]"@) by {
                    assert(s@.subrange(j as int, j + tail.len() as int) == tail);
                    let qlen = spec_quoted(gitems[m]).len() as int;
                    assert forall|k: int| 0 <= k < (rest + "]"@).len() implies s@.subrange(
                        j2 as int,
                        j + tail.len() as int,
                    )[k] == (rest + "]"@)[k] by {
                        assert(s@.subrange(j as int, j + tail.len() as int)[qlen + k] == tail[qlen
                            + k]);
                        assert(tail[qlen + k] == (rest + "]"@)[k]);
                    }
                }
                assert(spec_lit_at(s@, j2 as int, rest + "]"@));
            }
        }
        let ghost prev_views = out@.map_values(|v: String| v@);
        out.push(item);
        proof {
            assert(out@.map_values(|v: String| v@) =~= prev_views.push(item@));
            assert(spec_quoted_items(prev_views.push(item@)) =~= spec_quoted_items(
                prev_views,
            ).push(spec_quoted(item@)));
            lemma_comma_sep_push(spec_quoted_items(prev_views), spec_quoted(item@));
            assert(s@.subrange(i as int, j2 as int) =~= s@.subrange(i as int, j as int)
                + s@.subrange(j as int, j2 as int));
            assert(s@.subrange(i as int, j2 as int) =~= "["@ + spec_comma_sep(
                spec_quoted_items(out@.map_values(|v: String| v@)),
            ));
        }
        match expect_lit(s, j2, "]") {
            Some(k) => {
                proof {
                    assert(s@.subrange(i as int, k as int) =~= spec_str_array_json(
                        out@.map_values(|v: String| v@),
                    ));
                    if has {
                        if m + 1 < gitems.len() {
                            let rest = ","@ + spec_comma_sep(spec_quoted_items(gitems.skip(m + 1)));
                            assert(spec_lit_at(s@, j2 as int, rest + "]"@));
                            assert((rest + "]"@)[0] == ',');
                            assert(s@.subrange(j2 as int, j2 + (rest + "]"@).len() as int)
                                == rest + "]"@);
                            assert(s@.subrange(
                                j2 as int,
                                j2 + (rest + "]"@).len() as int,
                            )[0] == ',');
                            assert(s@.subrange(j2 as int, j2 + 1) == "]"@);
                            assert(s@.subrange(j2 as int, j2 + 1)[0] == ']');
                            assert(false);
                        }
                        assert(out@.map_values(|v: String| v@) =~= gitems);
                        assert(k == i + spec_str_array_json(gitems).len());
                    }
                }
                return Some((out, k));
            },
            None => {
                proof {
                    if has && m + 1 == gitems.len() {
                        assert(spec_lit_at(s@, j2 as int, Seq::<char>::empty() + "]"@));
                        assert(s@.subrange(j2 as int, j2 + 1) =~= "]"@) by {
                            assert(s@.subrange(j2 as int, j2 + 1) == (Seq::<char>::empty()
                                + "]"@));
                        }
                        assert(false);
                    }
                }
            },
        }
        match expect_lit(s, j2, ",") {
            Some(k) => {
                proof {
                    if has {
                        let rest = ","@ + spec_comma_sep(spec_quoted_items(gitems.skip(m + 1)));
                        assert(spec_lit_at(s@, j2 as int, rest + "]"@));
                        assert(s@.subrange(k as int, j2 + (rest + "]"@).len() as int)
                            =~= spec_array_tail(gitems, m + 1)) by {
                            assert(s@.subrange(j2 as int, j2 + (rest + "]"@).len() as int) == rest
                                + "]"@);
                            assert forall|w: int|
                                0 <= w < spec_array_tail(gitems, m + 1).len() implies #[trigger] s@.subrange(
                                k as int,
                                j2 + (rest + "]"@).len() as int,
                            )[w] == spec_array_tail(gitems, m + 1)[w] by {
                                assert(s@.subrange(j2 as int, j2 + (rest + "]"@).len() as int)[w
                                    + 1] == (rest + "]"@)[w + 1]);
                                assert((rest + "]"@)[w + 1] == spec_array_tail(gitems, m + 1)[w]);
                            }
                        }
                        assert(spec_lit_at(s@, k as int, spec_array_tail(gitems, m + 1)));
                    }
                }
                j = k;
            },
            None => {
                proof {
                    if has {
                        let rest = ","@ + spec_comma_sep(spec_quoted_items(gitems.skip(m + 1)));
                        assert(spec_lit_at(s@, j2 as int, rest + "]"@));
                        assert((rest + "]"@)[0] == ',');
                        assert(s@.subrange(j2 as int, j2 + (rest + "]"@).len() as int) == rest
                            + "]"@);
                        assert(s@.subrange(j2 as int, j2 + (rest + "]"@).len() as int)[0] == ',');
                        assert(s@.subrange(j2 as int, j2 + 1) =~= ","@);
                        assert(false);
                    }
                }
                return None;
            },
        }
    }
}

/// The front-to-back reading of a dependency object: the same text as
/// `spec_dep_json`, grouped so that each field heads what remains.
spec fn spec_dep_json_chain(d: Dependency) -> Seq<char> {
    let r_pkg = (match d.package {
        None => Seq::<char>::empty(),
        Some(p) => ",\"package\":"@ + spec_quoted(p@),
    }) + "}"@;
    let r8 = spec_kind_json(d.kind) + r_pkg;
    let r7 = ",\"kind\":"@ + r8;
    let r6b = spec_opt_str_json(d.target) + r7;
    let r6 = ",\"target\":"@ + r6b;
    let r5b = spec_bool_json(d.default_features) + r6;
    let r5 = ",\"default_features\":"@ + r5b;
    let r4b = spec_bool_json(d.optional) + r5;
    let r4 = ",\"optional\":"@ + r4b;
    let r3b = spec_str_array_json(d.features@.map_values(|v: String| v@)) + r4;
    let r3 = ",\"features\":"@ + r3b;
    let r2b = spec_quoted(d.req@) + r3;
    let r2 = ",\"req\":"@ + r2b;
    let r1 = spec_quoted(d.name@) + r2;
    "{\"name\":"@ + r1
}

/// Reassociating one concatenation.
proof fn lemma_assoc(a: Seq<char>, b: Seq<char>, c: Seq<char>)
    ensures
        (a + b) + c == a + (b + c),
{
    assert((a + b) + c =~= a + (b + c));
}

/// A dependency object reads the same from the front as from the back.
#[verifier::rlimit(100)]
proof fn lemma_dep_json_regroup(d: Dependency)
    ensures
        spec_dep_json(d) == spec_dep_json_chain(d),
{
    let p1 = "{\"name\":"@;
    let p2 = spec_quoted(d.name@);
    let p3 = ",\"req\":"@;
    let p4 = spec_quoted(d.req@);
    let p5 = ",\"features\":"@;
    let p6 = spec_str_array_json(d.features@.map_values(|v: String| v@));
    let p7 = ",\"optional\":"@;
    let p8 = spec_bool_json(d.optional);
    let p9 = ",\"default_features\":"@;
    let p10 = spec_bool_json(d.default_features);
    let p11 = ",\"target\":"@;
    let p12 = spec_opt_str_json(d.target);
    let p13 = ",\"kind\":"@;
    let p14 = spec_kind_json(d.kind);
    let p15 = match d.package {
        None => Seq::<char>::empty(),
        Some(p) => ",\"package\":"@ + spec_quoted(p@),
    };
    let p16 = "}"@;
    let l1 = p1;
    let l2 = l1 + p2;
    let l3 = l2 + p3;
    let l4 = l3 + p4;
    let l5 = l4 + p5;
    let l6 = l5 + p6;
    let l7 = l6 + p7;
    let l8 = l7 + p8;
    let l9 = l8 + p9;
    let l10 = l9 + p10;
    let l11 = l10 + p11;
    let l12 = l11 + p12;
    let l13 = l12 + p13;
    let l14 = l13 + p14;
    let l15 = l14 + p15;
    let l16 = l15 + p16;
    assert(spec_dep_json(d) == l16);
    let q16 = p16;
    let q15 = p15 + q16;
    let q14 = p14 + q15;
    let q13 = p13 + q14;
    let q12 = p12 + q13;
    let q11 = p11 + q12;
    let q10 = p10 + q11;
    let q9 = p9 + q10;
    let q8 = p8 + q9;
    let q7 = p7 + q8;
    let q6 = p6 + q7;
    let q5 = p5 + q6;
    let q4 = p4 + q5;
    let q3 = p3 + q4;
    let q2 = p2 + q3;
    let q1 = p1 + q2;
    assert(spec_dep_json_chain(d) == q1);
    lemma_assoc(l15, p16, Seq::<char>::empty());
    assert(l16 == l15 + q16);
    lemma_assoc(l14, p15, q16);
    assert(l16 == l14 + q15);
    lemma_assoc(l13, p14, q15);
    assert(l16 == l13 + q14);
    lemma_assoc(l12, p13, q14);
    assert(l16 == l12 + q13);
    lemma_assoc(l11, p12, q13);
    assert(l16 == l11 + q12);
    lemma_assoc(l10, p11, q12);
    assert(l16 == l10 + q11);
    lemma_assoc(l9, p10, q11);
    assert(l16 == l9 + q10);
    lemma_assoc(l8, p9, q10);
    assert(l16 == l8 + q9);
    lemma_assoc(l7, p8, q9);
    assert(l16 == l7 + q8);
    lemma_assoc(l6, p7, q8);
    assert(l16 == l6 + q7);
    lemma_assoc(l5, p6, q7);
    assert(l16 == l5 + q6);
    lemma_assoc(l4, p5, q6);
    assert(l16 == l4 + q5);
    lemma_assoc(l3, p4, q5);
    assert(l16 == l3 + q4);
    lemma_assoc(l2, p3, q4);
    assert(l16 == l2 + q3);
    lemma_assoc(l1, p2, q3);
    assert(l16 == l1 + q2);
    assert(l16 == q1);
}

/// Read one dependency object starting at `i`. When the caller knows what
/// dependency the input carries there, the parse succeeds and ends exactly
/// after it.
#[verifier::rlimit(100)]
fn parse_dep(s: &str, i: usize, w: Ghost<Option<Dependency>>) -> (r: Option<(Dependency, usize)>)
    requires
        i <= s@.len(),
        w@ matches Some(d) ==> dep_json_safe(d) && spec_lit_at(s@, i as int, spec_dep_json(d)),
    ensures
        r matches Some(p) ==> i <= p.1 <= s@.len() && dep_json_safe(p.0) && s@.subrange(
            i as int,
            p.1 as int,
        ) == spec_dep_json(p.0),
        w@ matches Some(d) ==> (r matches Some(p) && p.1 == i + spec_dep_json(d).len()),
{
    proof {
        reveal_strlit("{\"name\":");
        reveal_strlit(",\"req\":");
        reveal_strlit(",\"features\":");
        reveal_strlit(",\"optional\":");
        reveal_strlit(",\"default_features\":");
        reveal_strlit(",\"target\":");
        reveal_strlit(",\"kind\":");
        reveal_strlit(",\"package\":");
        reveal_strlit("}");
        reveal_strlit("\"");
        reveal_strlit("null");
        reveal_strlit("true");
        reveal_strlit("false");
        reveal_strlit("\"normal\"");
        reveal_strlit("\"build\"");
        reveal_strlit("\"dev\"");
    }
    let ghost has = w@ is Some;
    let ghost gd = w@.unwrap();
    let ghost r_pkg = (match gd.package {
        None => Seq::<char>::empty(),
        Some(p) => ",\"package\":"@ + spec_quoted(p@),
    }) + "}"@;
    let ghost r8 = spec_kind_json(gd.kind) + r_pkg;
    let ghost r7 = ",\"kind\":"@ + r8;
    let ghost r6b = spec_opt_str_json(gd.target) + r7;
    let ghost r6 = ",\"target\":"@ + r6b;
    let ghost r5b = spec_bool_json(gd.default_features) + r6;
    let ghost r5 = ",\"default_features\":"@ + r5b;
    let ghost r4b = spec_bool_json(gd.optional) + r5;
    let ghost r4 = ",\"optional\":"@ + r4b;
    let ghost r3b = spec_str_array_json(gd.features@.map_values(|v: String| v@)) + r4;
    let ghost r3 = ",\"features\":"@ + r3b;
    let ghost r2b = spec_quoted(gd.req@) + r3;
    let ghost r2 = ",\"req\":"@ + r2b;
    let ghost r1 = spec_quoted(gd.name@) + r2;
    let ghost mut done: Seq<char> = Seq::empty();
    let n = s.unicode_len();
    proof {
        if has {
            lemma_dep_json_regroup(gd);
            assert(spec_dep_json_chain(gd) == "{\"name\":"@ + r1);
            lemma_lit_at_split(s@, i as int, "{\"name\":"@, r1);
        }
    }
    let j = match expect_lit(s, i, "{\"name\":") {
        Some(j) => j,
        None => {
            return None;
        },
    };
    proof {
        assert(s@.subrange(i as int, i as int) =~= done);
        lemma_consume(s@, i as int, i as int, j as int, done, "{\"name\":"@);
        done = done + "{\"name\":"@;
        if has {
            lemma_lit_at_split(s@, j as int, spec_quoted(gd.name@), r2);
            assert(spec_quoted(gd.name@).len() == gd.name@.len() + 2);
            assert(spec_quoted_at(s@, j as int));
        }
    }
    let (name, j2) = match parse_string(s, j) {
        Some(p) => p,
        None => {
            return None;
        },
    };
    proof {
        lemma_consume(s@, i as int, j as int, j2 as int, done, spec_quoted(name@));
        done = done + spec_quoted(name@);
        if has {
            lemma_quoted_align(s@, j as int, j2 as int, name@, gd.name@);
            lemma_lit_at_split(s@, j2 as int, ",\"req\":"@, r2b);
        }
    }
    let j = match expect_lit(s, j2, ",\"req\":") {
        Some(j) => j,
        None => {
            return None;
        },
    };
    proof {
        lemma_consume(s@, i as int, j2 as int, j as int, done, ",\"req\":"@);
        done = done + ",\"req\":"@;
        if has {
            lemma_lit_at_split(s@, j as int, spec_quoted(gd.req@), r3);
            assert(spec_quoted(gd.req@).len() == gd.req@.len() + 2);
            assert(spec_quoted_at(s@, j as int));
        }
    }
    let (req, j2) = match parse_string(s, j) {
        Some(p) => p,
        None => {
            return None;
        },
    };
    proof {
        lemma_consume(s@, i as int, j as int, j2 as int, done, spec_quoted(req@));
        done = done + spec_quoted(req@);
        if has {
            lemma_quoted_align(s@, j as int, j2 as int, req@, gd.req@);
            lemma_lit_at_split(s@, j2 as int, ",\"features\":"@, r3b);
        }
    }
    let j = match expect_lit(s, j2, ",\"features\":") {
        Some(j) => j,
        None => {
            return None;
        },
    };
    proof {
        lemma_consume(s@, i as int, j2 as int, j as int, done, ",\"features\":"@);
        done = done + ",\"features\":"@;
        if has {
            lemma_lit_at_split(
                s@,
                j as int,
                spec_str_array_json(gd.features@.map_values(|v: String| v@)),
                r4,
            );
        }
    }
    let ghost warr: Option<Seq<Seq<char>>> = if has {
        Some(gd.features@.map_values(|v: String| v@))
    } else {
        None
    };
    let (features, j2) = match parse_str_array(s, j, Ghost(warr)) {
        Some(p) => p,
        None => {
            return None;
        },
    };
    proof {
        lemma_consume(
            s@,
            i as int,
            j as int,
            j2 as int,
            done,
            spec_str_array_json(features@.map_values(|v: String| v@)),
        );
        done = done + spec_str_array_json(features@.map_values(|v: String| v@));
        if has {
            assert(j2 == j + spec_str_array_json(gd.features@.map_values(|v: String| v@)).len());
            lemma_lit_at_split(s@, j2 as int, ",\"optional\":"@, r4b);
        }
    }
    let j = match expect_lit(s, j2, ",\"optional\":") {
        Some(j) => j,
        None => {
            return None;
        },
    };
    proof {
        lemma_consume(s@, i as int, j2 as int, j as int, done, ",\"optional\":"@);
        done = done + ",\"optional\":"@;
        if has {
            lemma_lit_at_split(s@, j as int, spec_bool_json(gd.optional), r5);
            assert(spec_lit_at(s@, j as int, spec_bool_json(gd.optional)));
        }
    }
    let (optional, j2) = match parse_bool(s, j) {
        Some(p) => p,
        None => {
            return None;
        },
    };
    proof {
        lemma_consume(s@, i as int, j as int, j2 as int, done, spec_bool_json(optional));
        done = done + spec_bool_json(optional);
        if has {
            lemma_bool_align(s@, j as int, j2 as int, optional, gd.optional);
            lemma_lit_at_split(s@, j2 as int, ",\"default_features\":"@, r5b);
        }
    }
    let j = match expect_lit(s, j2, ",\"default_features\":") {
        Some(j) => j,
        None => {
            return None;
        },
    };
    proof {
        lemma_consume(s@, i as int, j2 as int, j as int, done, ",\"default_features\":"@);
        done = done + ",\"default_features\":"@;
        if has {
            lemma_lit_at_split(s@, j as int, spec_bool_json(gd.default_features), r6);
            assert(spec_lit_at(s@, j as int, spec_bool_json(gd.default_features)));
        }
    }
    let (default_features, j2) = match parse_bool(s, j) {
        Some(p) => p,
        None => {
            return None;
        },
    };
    proof {
        lemma_consume(s@, i as int, j as int, j2 as int, done, spec_bool_json(default_features));
        done = done + spec_bool_json(default_features);
        if has {
            lemma_bool_align(s@, j as int, j2 as int, default_features, gd.default_features);
            lemma_lit_at_split(s@, j2 as int, ",\"target\":"@, r6b);
        }
    }
    let j = match expect_lit(s, j2, ",\"target\":") {
        Some(j) => j,
        None => {
            return None;
        },
    };
    proof {
        lemma_consume(s@, i as int, j2 as int, j as int, done, ",\"target\":"@);
        done = done + ",\"target\":"@;
        if has {
            lemma_lit_at_split(s@, j as int, spec_opt_str_json(gd.target), r7);
            match gd.target {
                None => {
                    assert(spec_lit_at(s@, j as int, "null"@));
                },
                Some(t) => {
                    assert(json_safe(t@));
                    assert(spec_quoted(t@).len() == t@.len() + 2);
                    assert(spec_quoted_at(s@, j as int));
                },
            }
        }
    }
    let (target, j2) = match parse_opt_str(s, j) {
        Some(p) => p,
        None => {
            return None;
        },
    };
    proof {
        lemma_consume(s@, i as int, j as int, j2 as int, done, spec_opt_str_json(target));
        done = done + spec_opt_str_json(target);
        if has {
            lemma_opt_str_align(
                s@,
                j as int,
                j2 as int,
                (match &target {
                    None => None,
                    Some(x) => Some(x@),
                }),
                (match gd.target {
                    None => None,
                    Some(x) => Some(x@),
                }),
            );
            assert(j2 == j + spec_opt_str_json(gd.target).len());
            lemma_lit_at_split(s@, j2 as int, ",\"kind\":"@, r8);
        }
    }
    let j = match expect_lit(s, j2, ",\"kind\":") {
        Some(j) => j,
        None => {
            return None;
        },
    };
    proof {
        lemma_consume(s@, i as int, j2 as int, j as int, done, ",\"kind\":"@);
        done = done + ",\"kind\":"@;
        if has {
            lemma_lit_at_split(s@, j as int, spec_kind_json(gd.kind), r_pkg);
            assert(spec_lit_at(s@, j as int, spec_kind_json(gd.kind)));
        }
    }
    let (kind, j2) = match parse_kind(s, j) {
        Some(p) => p,
        None => {
            return None;
        },
    };
    proof {
        lemma_consume(s@, i as int, j as int, j2 as int, done, spec_kind_json(kind));
        done = done + spec_kind_json(kind);
        if has {
            lemma_kind_align(s@, j as int, j2 as int, kind, gd.kind);
        }
    }
    let (package, j3) = match expect_lit(s, j2, ",\"package\":") {
        Some(jp) => {
            proof {
                if has {
                    match gd.package {
                        None => {
                            assert(r_pkg =~= "}"@);
                            assert(s@.subrange(j2 as int, j2 + 1) =~= "}"@) by {
                                assert(s@.subrange(j2 as int, j2 + r_pkg.len() as int) == r_pkg);
                            }
                            assert(s@.subrange(j2 as int, j2 + ",\"package\":"@.len() as int)[0]
                                == ',');
                            assert(false);
                        },
                        Some(p) => {
                            assert(r_pkg =~= ",\"package\":"@ + (spec_quoted(p@) + "}"@));
                            lemma_lit_at_split(
                                s@,
                                j2 as int,
                                ",\"package\":"@,
                                spec_quoted(p@) + "}"@,
                            );
                            lemma_lit_at_split(s@, jp as int, spec_quoted(p@), "}"@);
                            assert(json_safe(p@));
                            assert(spec_quoted(p@).len() == p@.len() + 2);
                            assert(spec_quoted_at(s@, jp as int));
                        },
                    }
                }
            }
            match parse_string(s, jp) {
                Some((p, jq)) => {
                    proof {
                        lemma_consume(s@, i as int, j2 as int, jp as int, done, ",\"package\":"@);
                        lemma_consume(
                            s@,
                            i as int,
                            jp as int,
                            jq as int,
                            done + ",\"package\":"@,
                            spec_quoted(p@),
                        );
                        done = done + ",\"package\":"@ + spec_quoted(p@);
                        if has {
                            let t = gd.package.unwrap();
                            lemma_quoted_align(s@, jp as int, jq as int, p@, t@);
                            assert(spec_lit_at(s@, jq as int, "}"@));
                        }
                    }
                    (Some(p), jq)
                },
                None => {
                    return None;
                },
            }
        },
        None => {
            proof {
                if has {
                    match gd.package {
                        Some(p) => {
                            assert(r_pkg =~= ",\"package\":"@ + (spec_quoted(p@) + "}"@));
                            lemma_lit_at_split(
                                s@,
                                j2 as int,
                                ",\"package\":"@,
                                spec_quoted(p@) + "}"@,
                            );
                            assert(false);
                        },
                        None => {
                            assert(r_pkg =~= "}"@);
                            assert(spec_lit_at(s@, j2 as int, "}"@)) by {
                                assert(s@.subrange(j2 as int, j2 + r_pkg.len() as int) == r_pkg);
                                assert(s@.subrange(j2 as int, j2 + 1) =~= "}"@);
                            }
                        },
                    }
                }
            }
            (None, j2)
        },
    };
    let j = match expect_lit(s, j3, "}") {
        Some(j) => j,
        None => {
            return None;
        },
    };
    let dep = Dependency { name, req, features, optional, default_features, target, kind, package };
    proof {
        lemma_consume(s@, i as int, j3 as int, j as int, done, "}"@);
        done = done + "}"@;
        assert(done =~= spec_dep_json(dep));
        assert(dep_json_safe(dep));
        if has {
            lemma_dep_json_regroup(gd);
            assert(j == i + spec_dep_json(gd).len()) by {
                assert(spec_dep_json_chain(gd) == "{\"name\":"@ + r1);
            }
        }
    }
    Some((dep, j))
}


/// The dependency pieces of an index line, rendered one by one.
pub open spec fn spec_dep_items(ds: Seq<Dependency>) -> Seq<Seq<char>> {
    ds.map_values(|d: Dependency| spec_dep_json(d))
}

/// What remains of a dependency array whose first `m` objects are consumed.
pub open spec fn spec_deps_tail(ds: Seq<Dependency>, m: int) -> Seq<char> {
    spec_comma_sep(spec_dep_items(ds.skip(m))) + "]"@
}

/// The next dependency object heads what remains of a dependency array.
proof fn lemma_deps_tail_head(s: Seq<char>, j: int, gds: Seq<Dependency>, m: int)
    requires
        0 <= j,
        0 <= m < gds.len(),
        spec_lit_at(s, j, spec_deps_tail(gds, m)),
    ensures
        spec_lit_at(s, j, spec_dep_json(gds[m])),
{
    lemma_comma_sep_front(spec_dep_items(gds.skip(m)));
    assert(spec_dep_items(gds.skip(m))[0] == spec_dep_json(gds[m]));
    let tail = spec_deps_tail(gds, m);
    assert(tail.subrange(0, spec_dep_json(gds[m]).len() as int) =~= spec_dep_json(gds[m]));
    assert(s.subrange(j, j + spec_dep_json(gds[m]).len() as int) =~= spec_dep_json(gds[m])) by {
        assert(s.subrange(j, j + tail.len() as int) == tail);
        assert forall|k: int| 0 <= k < spec_dep_json(gds[m]).len() implies #[trigger] s.subrange(
            j,
            j + spec_dep_json(gds[m]).len() as int,
        )[k] == spec_dep_json(gds[m])[k] by {
            assert(s.subrange(j, j + tail.len() as int)[k] == tail[k]);
            assert(tail.subrange(0, spec_dep_json(gds[m]).len() as int)[k] == tail[k]);
        }
    }
}

/// Consuming the dependency at the head of the array leaves the separator
/// and the rest of the array.
proof fn lemma_deps_tail_shift(s: Seq<char>, j: int, j2: int, gds: Seq<Dependency>, m: int)
    requires
        0 <= j,
        0 <= m < gds.len(),
        spec_lit_at(s, j, spec_deps_tail(gds, m)),
        j2 == j + spec_dep_json(gds[m]).len(),
    ensures
        m + 1 < gds.len() ==> spec_lit_at(s, j2, ","@) && spec_lit_at(
            s,
            j2 + 1,
            spec_deps_tail(gds, m + 1),
        ),
        m + 1 == gds.len() ==> spec_lit_at(s, j2, "]"@),
{
    reveal_strlit(",");
    reveal_strlit("]");
    lemma_comma_sep_front(spec_dep_items(gds.skip(m)));
    assert(spec_dep_items(gds.skip(m))[0] == spec_dep_json(gds[m]));
    assert(spec_dep_items(gds.skip(m)).skip(1) =~= spec_dep_items(gds.skip(m + 1))) by {
        assert forall|k: int|
            0 <= k < gds.skip(m).len() - 1 implies spec_dep_items(gds.skip(m)).skip(1)[k]
            == spec_dep_items(gds.skip(m + 1))[k] by {
            assert(gds.skip(m)[k + 1] == gds[m + 1 + k]);
            assert(gds.skip(m + 1)[k] == gds[m + 1 + k]);
        }
    }
    let tail = spec_deps_tail(gds, m);
    if m + 1 < gds.len() {
        let sep_rest = spec_comma_sep(spec_dep_items(gds.skip(m + 1)));
        assert(tail =~= spec_dep_json(gds[m]) + (","@ + (sep_rest + "]"@)));
        lemma_lit_at_split(s, j, spec_dep_json(gds[m]), ","@ + (sep_rest + "]"@));
        lemma_lit_at_split(s, j2, ","@, sep_rest + "]"@);
    } else {
        assert(tail =~= spec_dep_json(gds[m]) + "]"@);
        lemma_lit_at_split(s, j, spec_dep_json(gds[m]), "]"@);
    }
}

/// Read the dependency objects and closing `]` of a `deps` array whose `[`
/// has already been consumed. When the caller knows what dependencies the
/// input carries, the parse succeeds and ends exactly after them.
#[verifier::rlimit(100)]
fn parse_deps_tail(s: &str, i: usize, w: Ghost<Option<Seq<Dependency>>>) -> (r: Option<
    (Vec<Dependency>, usize),
>)
    requires
        i <= s@.len(),
        w@ matches Some(ds) ==> (forall|k: int|
            0 <= k < ds.len() ==> dep_json_safe(#[trigger] ds[k])) && spec_lit_at(
            s@,
            i as int,
            spec_deps_tail(ds, 0),
        ),
    ensures
        r matches Some(p) ==> i <= p.1 <= s@.len() && (forall|k: int|
            0 <= k < p.0@.len() ==> dep_json_safe(#[trigger] p.0@[k])) && s@.subrange(
            i as int,
            p.1 as int,
        ) == spec_comma_sep(spec_dep_items(p.0@)) + "]"@,
        w@ matches Some(ds) ==> (r matches Some(p) && p.1 == i + spec_deps_tail(ds, 0).len()),
{
    proof {
        reveal_strlit("]");
        reveal_strlit(",");
        reveal_strlit("{\"name\":");
    }
    let ghost has = w@ is Some;
    let ghost gds: Seq<Dependency> = match w@ {
        Some(ds) => ds,
        None => Seq::empty(),
    };
    let n = s.unicode_len();
    let mut j = i;
    let mut out: Vec<Dependency> = Vec::new();
    proof {
        if has && gds.len() == 0 {
            assert(spec_comma_sep(spec_dep_items(gds.skip(0))) == Seq::<char>::empty());
            assert(s@.subrange(j as int, j + 1) =~= "]"@) by {
                assert(s@.subrange(j as int, j + spec_deps_tail(gds, 0).len() as int)
                    == spec_deps_tail(gds, 0));
            }
        }
    }
    match expect_lit(s, j, "]") {
        Some(k) => {
            proof {
                assert(spec_dep_items(out@) =~= Seq::<Seq<char>>::empty());
                assert(s@.subrange(i as int, k as int) =~= spec_comma_sep(spec_dep_items(out@))
                    + "]"@);
                if has {
                    if gds.len() > 0 {
                        let tail = spec_deps_tail(gds, 0);
                        lemma_comma_sep_front(spec_dep_items(gds.skip(0)));
                        assert(spec_dep_items(gds.skip(0))[0] == spec_dep_json(gds[0]));
                        lemma_dep_json_regroup(gds[0]);
                        assert(spec_dep_json(gds[0])[0] == '{');
                        assert(tail.subrange(0, spec_dep_json(gds[0]).len() as int)
                            =~= spec_dep_json(gds[0]));
                        assert(s@.subrange(j as int, j + spec_dep_json(gds[0]).len() as int)
                            =~= spec_dep_json(gds[0])) by {
                            assert(s@.subrange(j as int, j + tail.len() as int) == tail);
                        }
                        assert(s@.subrange(
                            j as int,
                            j + spec_dep_json(gds[0]).len() as int,
                        )[0] == '{');
                        assert(s@.subrange(j as int, j + 1) == "]"@);
                        assert(s@.subrange(j as int, j + 1)[0] == "]"@[0]);
                        assert(false);
                    }
                    assert(spec_deps_tail(gds, 0).len() == 1);
                }
            }
            return Some((out, k));
        },
        None => {},
    }
    loop
        invariant
            i <= j <= n,
            n == s@.len(),
            forall|k: int| 0 <= k < out@.len() ==> dep_json_safe(#[trigger] out@[k]),
            out@.len() == 0 ==> j == i,
            out@.len() > 0 ==> s@.subrange(i as int, j as int) == spec_comma_sep(
                spec_dep_items(out@),
            ) + ","@,
            has == (w@ is Some),
            has ==> w@ == Some(gds),
            has ==> (forall|k: int| 0 <= k < gds.len() ==> dep_json_safe(#[trigger] gds[k])),
            has ==> out@.len() < gds.len() && spec_lit_at(
                s@,
                j as int,
                spec_deps_tail(gds, out@.len() as int),
            ) && (forall|k: int|
                0 <= k < out@.len() ==> spec_dep_json(#[trigger] out@[k]) == spec_dep_json(
                    gds[k],
                )),
        decreases n - j,
    {
        let ghost m = out@.len() as int;
        proof {
            reveal_strlit("]");
            reveal_strlit(",");
            if has {
                lemma_deps_tail_head(s@, j as int, gds, m);
            }
        }
        let ghost wd: Option<Dependency> = if has {
            Some(gds[m])
        } else {
            None
        };
        let (d, j2) = match parse_dep(s, j, Ghost(wd)) {
            Some(p) => p,
            None => {
                return None;
            },
        };
        proof {
            if has {
                assert(j2 == j + spec_dep_json(gds[m]).len());
                assert(spec_dep_json(d) == spec_dep_json(gds[m])) by {
                    assert(s@.subrange(j as int, j2 as int) == spec_dep_json(d));
                    assert(s@.subrange(j as int, j2 as int) == spec_dep_json(gds[m])) by {
                        lemma_deps_tail_head(s@, j as int, gds, m);
                    }
                }
                lemma_deps_tail_shift(s@, j as int, j2 as int, gds, m);
            }
        }
        let ghost prev = out@;
        out.push(d);
        proof {
            assert(spec_dep_items(out@) =~= spec_dep_items(prev).push(spec_dep_json(d)));
            lemma_comma_sep_push(spec_dep_items(prev), spec_dep_json(d));
            if m == 0 {
                assert(s@.subrange(i as int, j2 as int) =~= spec_comma_sep(spec_dep_items(out@)))
                    by {
                    assert(s@.subrange(j as int, j2 as int) == spec_dep_json(d));
                }
            } else {
                assert(s@.subrange(i as int, j2 as int) =~= spec_comma_sep(spec_dep_items(out@)))
                    by {
                    assert(s@.subrange(i as int, j2 as int) =~= s@.subrange(i as int, j as int)
                        + s@.subrange(j as int, j2 as int));
                    assert(s@.subrange(j as int, j2 as int) == spec_dep_json(d));
                }
            }
        }
        match expect_lit(s, j2, "]") {
            Some(k) => {
                proof {
                    assert(s@.subrange(i as int, k as int) =~= spec_comma_sep(spec_dep_items(out@))
                        + "]"@);
                    if has {
                        if m + 1 < gds.len() {
                            assert(spec_lit_at(s@, j2 as int, ","@));
                            assert(s@.subrange(j2 as int, j2 + 1) == ","@);
                            assert(s@.subrange(j2 as int, j2 + 1) == "]"@);
                            assert(","@[0] != "]"@[0]);
                            assert(false);
                        }
                        assert(spec_dep_items(out@) =~= spec_dep_items(gds));
                        assert(k == i + spec_deps_tail(gds, 0).len()) by {
                            assert(gds.skip(0) =~= gds);
                        }
                    }
                }
                return Some((out, k));
            },
            None => {},
        }
        match expect_lit(s, j2, ",") {
            Some(k) => {
                proof {
                    if has {
                        if m + 1 == gds.len() {
                            assert(spec_lit_at(s@, j2 as int, "]"@));
                            assert(false);
                        }
                        assert(spec_lit_at(s@, k as int, spec_deps_tail(gds, m + 1)));
                    }
                }
                j = k;
            },
            None => {
                proof {
                    if has {
                        if m + 1 < gds.len() {
                            assert(spec_lit_at(s@, j2 as int, ","@));
                        } else {
                            assert(spec_lit_at(s@, j2 as int, "]"@));
                        }
                        assert(false);
                    }
                }
                return None;
            },
        }
    }
}

/// Read `{"feature":["enables",...],...}` starting at `i`.
fn parse_features_obj(s: &str, i: usize) -> (r: Option<(Vec<(String, Vec<String>)>, usize)>)
    requires
        i <= s@.len(),
    ensures
        r matches Some(p) ==> i <= p.1 <= s@.len(),
{
    let n = s.unicode_len();
    let mut j = match expect_lit(s, i, "{") {
        Some(j) => j,
        None => {
            return None;
        },
    };
    let mut out: Vec<(String, Vec<String>)> = Vec::new();
    match expect_lit(s, j, "}") {
        Some(k) => {
            return Some((out, k));
        },
        None => {},
    }
    loop
        invariant
            i <= j <= n,
            n == s@.len(),
        decreases n - j,
    {
        let (key, j2) = match parse_string(s, j) {
            Some(p) => p,
            None => {
                return None;
            },
        };
        let j3 = match expect_lit(s, j2, ":") {
            Some(k) => k,
            None => {
                return None;
            },
        };
        let (vals, j4) = match parse_str_array(s, j3, Ghost(None)) {
            Some(p) => p,
            None => {
                return None;
            },
        };
        out.push((key, vals));
        match expect_lit(s, j4, "}") {
            Some(k) => {
                return Some((out, k));
            },
            None => {},
        }
        match expect_lit(s, j4, ",") {
            Some(k) => {
                if k <= j {
                    return None;
                }
                j = k;
            },
            None => {
                return None;
            },
        }
    }
}

/// Read one index line back into a record. Its building blocks parse each
/// piece of the grammar exactly; the line as a whole carries no contract of
/// its own, so the callers that rewrite index files re-render whatever it
/// returns and accept the result only if it reproduces the input line:
/// every accepted line is known to be the rendering of the parsed record.
pub fn parse_crate_line(s: &str) -> (r: Option<Crate>) {
    let n = s.unicode_len();
    let j = match expect_lit(s, 0, "{\"name\":") {
        Some(j) => j,
        None => {
            return None;
        },
    };
    let (name, j) = match parse_string(s, j) {
        Some(p) => p,
        None => {
            return None;
        },
    };
    let j = match expect_lit(s, j, ",\"vers\":") {
        Some(j) => j,
        None => {
            return None;
        },
    };
    let (vers, j) = match parse_string(s, j) {
        Some(p) => p,
        None => {
            return None;
        },
    };
    let j = match expect_lit(s, j, ",\"deps\":[") {
        Some(j) => j,
        None => {
            return None;
        },
    };
    let (deps, j) = match parse_deps_tail(s, j, Ghost(None)) {
        Some(p) => p,
        None => {
            return None;
        },
    };
    let j = match expect_lit(s, j, ",\"cksum\":") {
        Some(j) => j,
        None => {
            return None;
        },
    };
    let (cksum, j) = match parse_string(s, j) {
        Some(p) => p,
        None => {
            return None;
        },
    };
    let j = match expect_lit(s, j, ",\"features\":") {
        Some(j) => j,
        None => {
            return None;
        },
    };
    let (features, j) = match parse_features_obj(s, j) {
        Some(p) => p,
        None => {
            return None;
        },
    };
    let j = match expect_lit(s, j, ",\"yanked\":") {
        Some(j) => j,
        None => {
            return None;
        },
    };
    let (yanked, j) = match expect_lit(s, j, "null") {
        Some(k) => (None, k),
        None => match parse_bool(s, j) {
            Some((b, k)) => (Some(b), k),
            None => {
                return None;
            },
        },
    };
    let j = match expect_lit(s, j, ",\"links\":") {
        Some(j) => j,
        None => {
            return None;
        },
    };
    let (links, j) = match parse_opt_str(s, j) {
        Some(p) => p,
        None => {
            return None;
        },
    };
    let j = match expect_lit(s, j, "}") {
        Some(j) => j,
        None => {
            return None;
        },
    };
    if j != n {
        return None;
    }
    Some(Crate { name, vers, deps, cksum, features, yanked, links })
}

/// The record with its yank flag set to `y` if it is the one named, else
/// unchanged.
pub open spec fn spec_flip_entry(e: Crate, name: Seq<char>, vers: Seq<char>, y: bool) -> Crate {
    if e.name@ == name && e.vers@ == vers {
        Crate { yanked: Some(y), ..e }
    } else {
        e
    }
}

pub open spec fn spec_flip(es: Seq<Crate>, name: Seq<char>, vers: Seq<char>, y: bool) -> Seq<
    Crate,
> {
    es.map_values(|e: Crate| spec_flip_entry(e, name, vers, y))
}

/// A record file's full contents: each record's line followed by a newline.
pub open spec fn spec_render(es: Seq<Crate>) -> Seq<char>
    decreases es.len(),
{
    if es.len() == 0 {
        Seq::empty()
    } else {
        spec_render(es.drop_last()) + spec_crate_line(es.last()) + "\n"@
    }
}

pub proof fn lemma_render_push(es: Seq<Crate>, e: Crate)
    ensures
        spec_render(es.push(e)) == spec_render(es) + spec_crate_line(e) + "\n"@,
{
    assert(es.push(e).drop_last() =~= es);
    assert(es.push(e).last() == e);
}

/// Append one record's line to the previous contents of its record file;
/// this is the materialization of an `AddEntry` index mutation.
pub fn add_line(prev: &str, c: &Crate) -> (r: Result<String, IndexError>)
    ensures
        r matches Ok(out) ==> out@ == prev@ + spec_crate_line(*c) + "\n"@,
        r is Ok <==> crate_json_safe(*c),
        r matches Err(e) ==> e == IndexError::InvalidRecord,
{
    let line = match emit_crate_line(c) {
        Ok(l) => l,
        Err(e) => {
            return Err(e);
        },
    };
    let mut out = prev.to_owned();
    out.append(line.as_str());
    out.append("\n");
    Ok(out)
}

/// Rewrite a record file, setting the yank flag of the named version; this
/// is the materialization of a `SetYanked` index mutation. Every line is
/// parsed, re-rendered and compared against the input, so a returned file is
/// known to be the rendering of the input file's records with exactly the
/// named version's flag changed.
#[verifier::rlimit(60)]
pub fn set_yanked_lines(prev: &str, name: &str, vers: &str, yanked: bool) -> (r: Result<
    String,
    IndexError,
>)
    ensures
        r matches Ok(out) ==> exists|es: Seq<Crate>|
            prev@ == #[trigger] spec_render(es) && out@ == spec_render(
                spec_flip(es, name@, vers@, yanked),
            ) && all_safe(es),
        r matches Ok(out) ==> forall|es: Seq<Crate>|
            prev@ == #[trigger] spec_render(es) && all_safe(es) ==> out@ == spec_render(
                spec_flip(es, name@, vers@, yanked),
            ),
        r matches Err(e) ==> e == IndexError::CorruptFile,
{
    let n = prev.unicode_len();
    let mut out = String::new();
    let mut start: usize = 0;
    let mut i: usize = 0;
    let ghost mut es: Seq<Crate> = Seq::empty();
    while i < n
        invariant
            0 <= start <= i <= n,
            n == prev@.len(),
            prev@.subrange(0, start as int) == spec_render(es),
            out@ == spec_render(spec_flip(es, name@, vers@, yanked)),
            forall|k: int| 0 <= k < es.len() ==> crate_json_safe(#[trigger] es[k]),
            forall|k: int| start <= k < i ==> prev@[k] != '\n',
        decreases n - i,
    {
        if prev.get_char(i) == '\n' {
            let line = prev.substring_char(start, i);
            let mut e = match parse_crate_line(line) {
                Some(e) => e,
                None => {
                    return Err(IndexError::CorruptFile);
                },
            };
            let ghost e0 = e;
            let emitted = match emit_crate_line(&e) {
                Ok(l) => l,
                Err(_) => {
                    return Err(IndexError::CorruptFile);
                },
            };
            if !str_equal(emitted.as_str(), line) {
                return Err(IndexError::CorruptFile);
            }
            if str_equal(e.name.as_str(), name) && str_equal(e.vers.as_str(), vers) {
                e.yanked = Some(yanked);
            }
            proof {
                assert(e == spec_flip_entry(e0, name@, vers@, yanked));
            }
            let flipped = match emit_crate_line(&e) {
                Ok(l) => l,
                Err(_) => {
                    return Err(IndexError::CorruptFile);
                },
            };
            out.append(flipped.as_str());
            out.append("\n");
            proof {
                lemma_render_push(es, e0);
                lemma_render_push(spec_flip(es, name@, vers@, yanked), e);
                assert(spec_flip(es.push(e0), name@, vers@, yanked) =~= spec_flip(
                    es,
                    name@,
                    vers@,
                    yanked,
                ).push(e));
                es = es.push(e0);
                assert(prev@.subrange(0, i + 1) =~= prev@.subrange(0, start as int) + line@
                    + "\n"@) by {
                    reveal_strlit("\n");
                }
            }
            start = i + 1;
        }
        i += 1;
    }
    if start != n {
        return Err(IndexError::CorruptFile);
    }
    proof {
        assert(prev@.subrange(0, n as int) =~= prev@);
        assert forall|es2: Seq<Crate>|
            prev@ == #[trigger] spec_render(es2) && all_safe(es2) implies out@ == spec_render(
            spec_flip(es2, name@, vers@, yanked),
        ) by {
            lemma_flip_render_determined(es2, es, name@, vers@, yanked);
        }
    }
    Ok(out)
}

/// A piece of text that stays on one line.
pub open spec fn single_line(s: Seq<char>) -> bool {
    forall|i: int| 0 <= i < s.len() ==> #[trigger] s[i] != '\n'
}

proof fn lemma_concat_single_line(a: Seq<char>, b: Seq<char>)
    requires
        single_line(a),
        single_line(b),
    ensures
        single_line(a + b),
{
    assert forall|i: int| 0 <= i < (a + b).len() implies #[trigger] (a + b)[i] != '\n' by {
        if i < a.len() {
            assert((a + b)[i] == a[i]);
        } else {
            assert((a + b)[i] == b[i - a.len()]);
        }
    }
}

proof fn lemma_quoted_single_line(s: Seq<char>)
    requires
        json_safe(s),
    ensures
        single_line(spec_quoted(s)),
{
    reveal_strlit("\"");
    assert(single_line("\""@));
    assert(single_line(s)) by {
        assert forall|i: int| 0 <= i < s.len() implies #[trigger] s[i] != '\n' by {
            assert(json_safe_char(s[i]));
        }
    }
    lemma_concat_single_line("\""@, s);
    lemma_concat_single_line("\""@ + s, "\""@);
}

proof fn lemma_comma_sep_single_line(items: Seq<Seq<char>>)
    requires
        forall|k: int| 0 <= k < items.len() ==> single_line(#[trigger] items[k]),
    ensures
        single_line(spec_comma_sep(items)),
    decreases items.len(),
{
    reveal_strlit(",");
    if items.len() > 1 {
        lemma_comma_sep_single_line(items.drop_last());
        lemma_concat_single_line(spec_comma_sep(items.drop_last()), ","@);
        lemma_concat_single_line(spec_comma_sep(items.drop_last()) + ","@, items.last());
    }
}

proof fn lemma_str_array_single_line(items: Seq<Seq<char>>)
    requires
        forall|k: int| 0 <= k < items.len() ==> json_safe(#[trigger] items[k]),
    ensures
        single_line(spec_str_array_json(items)),
{
    reveal_strlit("[");
    reveal_strlit("]");
    let quoted = items.map_values(|s: Seq<char>| spec_quoted(s));
    assert forall|k: int| 0 <= k < quoted.len() implies single_line(#[trigger] quoted[k]) by {
        lemma_quoted_single_line(items[k]);
    }
    lemma_comma_sep_single_line(quoted);
    lemma_concat_single_line("["@, spec_comma_sep(quoted));
    lemma_concat_single_line("["@ + spec_comma_sep(quoted), "]"@);
}

proof fn lemma_literals_single_line()
    ensures
        single_line("null"@),
        single_line("true"@),
        single_line("false"@),
        single_line("\"normal\""@),
        single_line("\"build\""@),
        single_line("\"dev\""@),
{
    reveal_strlit("null");
    reveal_strlit("true");
    reveal_strlit("false");
    reveal_strlit("\"normal\"");
    reveal_strlit("\"build\"");
    reveal_strlit("\"dev\"");
}

proof fn lemma_opt_str_single_line(o: Option<String>)
    requires
        o matches Some(s) ==> json_safe(s@),
    ensures
        single_line(spec_opt_str_json(o)),
{
    lemma_literals_single_line();
    match o {
        None => {},
        Some(s) => {
            lemma_quoted_single_line(s@);
        },
    }
}

proof fn lemma_dep_single_line(d: Dependency)
    requires
        dep_json_safe(d),
    ensures
        single_line(spec_dep_json(d)),
{
    reveal_strlit("{\"name\":");
    reveal_strlit(",\"req\":");
    reveal_strlit(",\"features\":");
    reveal_strlit(",\"optional\":");
    reveal_strlit(",\"default_features\":");
    reveal_strlit(",\"target\":");
    reveal_strlit(",\"kind\":");
    reveal_strlit(",\"package\":");
    reveal_strlit("}");
    lemma_literals_single_line();
    lemma_quoted_single_line(d.name@);
    lemma_quoted_single_line(d.req@);
    lemma_str_array_single_line(d.features@.map_values(|s: String| s@));
    lemma_opt_str_single_line(d.target);
    let a = "{\"name\":"@ + spec_quoted(d.name@);
    lemma_concat_single_line("{\"name\":"@, spec_quoted(d.name@));
    let b = a + ",\"req\":"@;
    lemma_concat_single_line(a, ",\"req\":"@);
    let c = b + spec_quoted(d.req@);
    lemma_concat_single_line(b, spec_quoted(d.req@));
    let e = c + ",\"features\":"@;
    lemma_concat_single_line(c, ",\"features\":"@);
    let f = e + spec_str_array_json(d.features@.map_values(|s: String| s@));
    lemma_concat_single_line(e, spec_str_array_json(d.features@.map_values(|s: String| s@)));
    let g = f + ",\"optional\":"@;
    lemma_concat_single_line(f, ",\"optional\":"@);
    let h = g + spec_bool_json(d.optional);
    lemma_concat_single_line(g, spec_bool_json(d.optional));
    let i = h + ",\"default_features\":"@;
    lemma_concat_single_line(h, ",\"default_features\":"@);
    let j = i + spec_bool_json(d.default_features);
    lemma_concat_single_line(i, spec_bool_json(d.default_features));
    let k = j + ",\"target\":"@;
    lemma_concat_single_line(j, ",\"target\":"@);
    let l = k + spec_opt_str_json(d.target);
    lemma_concat_single_line(k, spec_opt_str_json(d.target));
    let m = l + ",\"kind\":"@;
    lemma_concat_single_line(l, ",\"kind\":"@);
    let n = m + spec_kind_json(d.kind);
    lemma_concat_single_line(m, spec_kind_json(d.kind));
    let pkg = match d.package {
        None => Seq::<char>::empty(),
        Some(p) => ",\"package\":"@ + spec_quoted(p@),
    };
    match d.package {
        None => {
            assert(single_line(pkg));
        },
        Some(p) => {
            lemma_quoted_single_line(p@);
            lemma_concat_single_line(",\"package\":"@, spec_quoted(p@));
        },
    }
    let o = n + pkg;
    lemma_concat_single_line(n, pkg);
    lemma_concat_single_line(o, "}"@);
}

proof fn lemma_feature_single_line(kv: (String, Vec<String>))
    requires
        json_safe(kv.0@),
        forall|j: int| 0 <= j < kv.1@.len() ==> json_safe((#[trigger] kv.1@[j])@),
    ensures
        single_line(spec_feature_json(kv)),
{
    reveal_strlit(":");
    lemma_quoted_single_line(kv.0@);
    let vals = kv.1@.map_values(|s: String| s@);
    lemma_str_array_single_line(vals);
    lemma_concat_single_line(spec_quoted(kv.0@), ":"@);
    lemma_concat_single_line(spec_quoted(kv.0@) + ":"@, spec_str_array_json(vals));
}

/// A record whose fields are free of characters that would need escaping
/// renders as a single line: no newline can appear anywhere in it, so one
/// record per line is a property of the format, not a convention.
pub proof fn lemma_crate_line_single_line(c: Crate)
    requires
        crate_json_safe(c),
    ensures
        single_line(spec_crate_line(c)),
{
    reveal_strlit("{\"name\":");
    reveal_strlit(",\"vers\":");
    reveal_strlit(",\"deps\":[");
    reveal_strlit("],\"cksum\":");
    reveal_strlit(",\"features\":{");
    reveal_strlit("},\"yanked\":");
    reveal_strlit(",\"links\":");
    reveal_strlit("}");
    lemma_literals_single_line();
    lemma_quoted_single_line(c.name@);
    lemma_quoted_single_line(c.vers@);
    lemma_quoted_single_line(c.cksum@);
    let deps = c.deps@.map_values(|d: Dependency| spec_dep_json(d));
    assert forall|k: int| 0 <= k < deps.len() implies single_line(#[trigger] deps[k]) by {
        lemma_dep_single_line(c.deps@[k]);
    }
    lemma_comma_sep_single_line(deps);
    let feats = c.features@.map_values(|kv: (String, Vec<String>)| spec_feature_json(kv));
    assert forall|k: int| 0 <= k < feats.len() implies single_line(#[trigger] feats[k]) by {
        lemma_feature_single_line(c.features@[k]);
    }
    lemma_comma_sep_single_line(feats);
    lemma_opt_str_single_line(c.links);
    let a = "{\"name\":"@ + spec_quoted(c.name@);
    lemma_concat_single_line("{\"name\":"@, spec_quoted(c.name@));
    let b = a + ",\"vers\":"@;
    lemma_concat_single_line(a, ",\"vers\":"@);
    let d = b + spec_quoted(c.vers@);
    lemma_concat_single_line(b, spec_quoted(c.vers@));
    let e = d + ",\"deps\":["@;
    lemma_concat_single_line(d, ",\"deps\":["@);
    let f = e + spec_comma_sep(deps);
    lemma_concat_single_line(e, spec_comma_sep(deps));
    let g = f + "],\"cksum\":"@;
    lemma_concat_single_line(f, "],\"cksum\":"@);
    let h = g + spec_quoted(c.cksum@);
    lemma_concat_single_line(g, spec_quoted(c.cksum@));
    let i = h + ",\"features\":{"@;
    lemma_concat_single_line(h, ",\"features\":{"@);
    let j = i + spec_comma_sep(feats);
    lemma_concat_single_line(i, spec_comma_sep(feats));
    let k = j + "},\"yanked\":"@;
    lemma_concat_single_line(j, "},\"yanked\":"@);
    let l = k + spec_opt_bool_json(c.yanked);
    lemma_concat_single_line(k, spec_opt_bool_json(c.yanked));
    let m = l + ",\"links\":"@;
    lemma_concat_single_line(l, ",\"links\":"@);
    let n = m + spec_opt_str_json(c.links);
    lemma_concat_single_line(m, spec_opt_str_json(c.links));
    lemma_concat_single_line(n, "}"@);
}

/// Every record in the sequence is renderable without escaping.
pub open spec fn all_safe(es: Seq<Crate>) -> bool {
    forall|k: int| 0 <= k < es.len() ==> crate_json_safe(#[trigger] es[k])
}

proof fn lemma_render_shape(es: Seq<Crate>)
    ensures
        es.len() == 0 ==> spec_render(es).len() == 0,
        es.len() > 0 ==> spec_render(es).len() >= 1 && spec_render(es)[spec_render(es).len() - 1]
            == '\n',
{
    reveal_strlit("\n");
    if es.len() > 0 {
        let s = spec_render(es);
        assert(s == spec_render(es.drop_last()) + spec_crate_line(es.last()) + "\n"@);
        assert(s[s.len() - 1] == "\n"@[0]);
    }
}

/// Two renderings of safe record sequences that agree byte for byte agree
/// line by line: a record file determines its lines, because no record's
/// line can contain the newline that separates them.
#[verifier::rlimit(100)]
pub proof fn lemma_render_split(es1: Seq<Crate>, es2: Seq<Crate>)
    requires
        spec_render(es1) == spec_render(es2),
        all_safe(es1),
        all_safe(es2),
    ensures
        es1.len() == es2.len(),
        forall|i: int|
            0 <= i < es1.len() ==> spec_crate_line(#[trigger] es1[i]) == spec_crate_line(es2[i]),
    decreases es1.len(),
{
    reveal_strlit("\n");
    lemma_render_shape(es1);
    lemma_render_shape(es2);
    if es1.len() == 0 {
        if es2.len() > 0 {
            assert(spec_render(es2).len() >= 1);
            assert(false);
        }
    } else if es2.len() == 0 {
        assert(false);
    } else {
        let s = spec_render(es1);
        let a = spec_render(es1.drop_last());
        let b = spec_render(es2.drop_last());
        let l1 = spec_crate_line(es1.last());
        let l2 = spec_crate_line(es2.last());
        lemma_crate_line_single_line(es1.last());
        lemma_crate_line_single_line(es2.last());
        lemma_render_shape(es1.drop_last());
        lemma_render_shape(es2.drop_last());
        assert(s == a + l1 + "\n"@);
        assert(s == b + l2 + "\n"@);
        assert(s.len() == a.len() + l1.len() + 1);
        assert(s.len() == b.len() + l2.len() + 1);
        if l1.len() < l2.len() {
            if a.len() == 0 {
                assert(s.len() == l1.len() + 1);
                assert(s.len() >= l2.len() + 1);
                assert(false);
            } else {
                assert(es1.drop_last().len() > 0);
                let p = a.len() - 1;
                assert(s[p] == a[p]);
                assert(a[p] == '\n');
                assert(p >= b.len());
                assert(p < b.len() + l2.len());
                assert(s[p] == l2[p - b.len()]);
                assert(l2[p - b.len()] != '\n');
                assert(false);
            }
        }
        if l2.len() < l1.len() {
            if b.len() == 0 {
                assert(s.len() == l2.len() + 1);
                assert(s.len() >= l1.len() + 1);
                assert(false);
            } else {
                assert(es2.drop_last().len() > 0);
                let p = b.len() - 1;
                assert(s[p] == b[p]);
                assert(b[p] == '\n');
                assert(p >= a.len());
                assert(p < a.len() + l1.len());
                assert(s[p] == l1[p - a.len()]);
                assert(l1[p - a.len()] != '\n');
                assert(false);
            }
        }
        assert(l1.len() == l2.len());
        assert(a.len() == b.len());
        assert(l1 =~= l2) by {
            assert forall|i: int| 0 <= i < l1.len() implies l1[i] == l2[i] by {
                assert(s[a.len() + i] == l1[i]);
                assert(s[b.len() + i] == l2[i]);
            }
        }
        assert(a =~= b) by {
            assert forall|i: int| 0 <= i < a.len() implies a[i] == b[i] by {
                assert(s[i] == a[i]);
                assert(s[i] == b[i]);
            }
        }
        assert(all_safe(es1.drop_last()));
        assert(all_safe(es2.drop_last()));
        lemma_render_split(es1.drop_last(), es2.drop_last());
        assert forall|i: int|
            0 <= i < es1.len() implies spec_crate_line(#[trigger] es1[i]) == spec_crate_line(
            es2[i],
        ) by {
            if i < es1.len() - 1 {
                assert(es1.drop_last()[i] == es1[i]);
                assert(es2.drop_last()[i] == es2[i]);
            }
        }
    }
}

proof fn lemma_drop_common_prefix(p: Seq<char>, x: Seq<char>, y: Seq<char>)
    requires
        p + x == p + y,
    ensures
        x == y,
{
    assert((p + x).len() == p.len() + x.len());
    assert((p + y).len() == p.len() + y.len());
    assert(x =~= y) by {
        assert(x.len() == y.len());
        assert forall|i: int| 0 <= i < x.len() implies x[i] == y[i] by {
            assert((p + x)[p.len() + i] == x[i]);
            assert((p + y)[p.len() + i] == y[i]);
        }
    }
}

proof fn lemma_drop_common_suffix(x: Seq<char>, y: Seq<char>, s: Seq<char>)
    requires
        x + s == y + s,
    ensures
        x == y,
{
    assert((x + s).len() == x.len() + s.len());
    assert((y + s).len() == y.len() + s.len());
    assert(x =~= y) by {
        assert(x.len() == y.len());
        assert forall|i: int| 0 <= i < x.len() implies x[i] == y[i] by {
            assert((x + s)[i] == x[i]);
            assert((y + s)[i] == y[i]);
        }
    }
}

/// A quoted safe string at the head of a text determines itself and what
/// follows: its closing quote is the first quote after the opening one.
proof fn lemma_quoted_prefix_deterministic(
    s1: Seq<char>,
    s2: Seq<char>,
    r1: Seq<char>,
    r2: Seq<char>,
)
    requires
        json_safe(s1),
        json_safe(s2),
        spec_quoted(s1) + r1 == spec_quoted(s2) + r2,
    ensures
        s1 == s2,
        r1 == r2,
{
    reveal_strlit("\"");
    let l = spec_quoted(s1) + r1;
    assert(spec_quoted(s1).len() == s1.len() + 2);
    assert(spec_quoted(s2).len() == s2.len() + 2);
    if s1.len() < s2.len() {
        let p: int = 1 + s1.len() as int;
        assert(l[p] == spec_quoted(s1)[p]);
        assert(spec_quoted(s1)[p] == '"');
        assert(l[p] == spec_quoted(s2)[p]);
        assert(spec_quoted(s2)[p] == s2[p - 1]);
        assert(json_safe_char(s2[p - 1]));
        assert(false);
    }
    if s2.len() < s1.len() {
        let p: int = 1 + s2.len() as int;
        assert(l[p] == spec_quoted(s2)[p]);
        assert(spec_quoted(s2)[p] == '"');
        assert(l[p] == spec_quoted(s1)[p]);
        assert(spec_quoted(s1)[p] == s1[p - 1]);
        assert(json_safe_char(s1[p - 1]));
        assert(false);
    }
    assert(s1 =~= s2) by {
        assert forall|i: int| 0 <= i < s1.len() implies s1[i] == s2[i] by {
            assert(l[1 + i] == spec_quoted(s1)[1 + i]);
            assert(spec_quoted(s1)[1 + i] == s1[i]);
            assert(l[1 + i] == spec_quoted(s2)[1 + i]);
            assert(spec_quoted(s2)[1 + i] == s2[i]);
        }
    }
    lemma_drop_common_prefix(spec_quoted(s1), r1, r2);
}

/// Everything of a record's line before the yank value.
pub open spec fn spec_line_head(c: Crate) -> Seq<char> {
    "{\"name\":"@ + spec_quoted(c.name@) + ",\"vers\":"@ + spec_quoted(c.vers@) + ",\"deps\":["@
        + spec_comma_sep(c.deps@.map_values(|d: Dependency| spec_dep_json(d))) + "],\"cksum\":"@
        + spec_quoted(c.cksum@) + ",\"features\":{"@ + spec_comma_sep(
        c.features@.map_values(|kv: (String, Vec<String>)| spec_feature_json(kv)),
    ) + "},\"yanked\":"@
}

/// Everything of a record's line after the yank value.
pub open spec fn spec_line_tail(c: Crate) -> Seq<char> {
    ",\"links\":"@ + spec_opt_str_json(c.links) + "}"@
}

/// A record's line splits around its yank value, and neither side depends
/// on the flag itself.
proof fn lemma_line_decomposition(c: Crate)
    ensures
        spec_crate_line(c) == spec_line_head(c) + spec_opt_bool_json(c.yanked) + spec_line_tail(c),
{
    assert(spec_crate_line(c) =~= spec_line_head(c) + spec_opt_bool_json(c.yanked)
        + spec_line_tail(c));
}

/// Records with the same line have the same yank flag, the same link key,
/// and the same text around the flag: the flag and the link are readable
/// off the end of the line.
#[verifier::rlimit(100)]
proof fn lemma_line_suffix_deterministic(c1: Crate, c2: Crate)
    requires
        crate_json_safe(c1),
        crate_json_safe(c2),
        spec_crate_line(c1) == spec_crate_line(c2),
    ensures
        spec_line_head(c1) == spec_line_head(c2),
        spec_line_tail(c1) == spec_line_tail(c2),
        c1.yanked == c2.yanked,
{
    reveal_strlit("\"");
    reveal_strlit("}");
    reveal_strlit("null");
    reveal_strlit("true");
    reveal_strlit("false");
    reveal_strlit(",\"links\":");
    lemma_line_decomposition(c1);
    lemma_line_decomposition(c2);
    let l = spec_crate_line(c1);
    let n = l.len();
    let h1 = spec_line_head(c1);
    let h2 = spec_line_head(c2);
    let y1 = spec_opt_bool_json(c1.yanked);
    let y2 = spec_opt_bool_json(c2.yanked);
    let t1 = spec_line_tail(c1);
    let t2 = spec_line_tail(c2);
    assert(l == h1 + y1 + t1 && l == h2 + y2 + t2);
    assert(n == h1.len() + y1.len() + t1.len());
    assert(n == h2.len() + y2.len() + t2.len());
    // The tails agree: the link value, if any, is the quoted safe string
    // that ends just before the closing brace.
    match (c1.links, c2.links) {
        (None, None) => {
            assert(t1 == t2);
        },
        (Some(a), Some(b)) => {
            let la = a@.len() as int;
            let lb = b@.len() as int;
            assert(t1.len() == 9 + la + 2 + 1);
            assert(t2.len() == 9 + lb + 2 + 1);
            assert(spec_quoted(a@)[0] == '"' && spec_quoted(a@)[la + 1] == '"');
            assert(spec_quoted(b@)[0] == '"' && spec_quoted(b@)[lb + 1] == '"');
            if la < lb {
                let p = n - la - 3;
                assert(l[p] == t1[t1.len() - la - 3]);
                assert(t1[t1.len() - la - 3] == spec_quoted(a@)[0]);
                assert(l[p] == t2[t2.len() - (n - p)]);
                assert(t2[9 + (p - (n - t2.len()) - 9)] == spec_quoted(b@)[p - (n - t2.len()) - 9]);
                assert(spec_quoted(b@)[p - (n - t2.len()) - 9] == b@[p - (n - t2.len()) - 10]);
                assert(json_safe_char(b@[p - (n - t2.len()) - 10]));
                assert(false);
            }
            if lb < la {
                let p = n - lb - 3;
                assert(l[p] == t2[t2.len() - lb - 3]);
                assert(t2[t2.len() - lb - 3] == spec_quoted(b@)[0]);
                assert(l[p] == t1[t1.len() - (n - p)]);
                assert(t1[9 + (p - (n - t1.len()) - 9)] == spec_quoted(a@)[p - (n - t1.len()) - 9]);
                assert(spec_quoted(a@)[p - (n - t1.len()) - 9] == a@[p - (n - t1.len()) - 10]);
                assert(json_safe_char(a@[p - (n - t1.len()) - 10]));
                assert(false);
            }
            assert(a@ =~= b@) by {
                assert forall|i: int| 0 <= i < la implies a@[i] == b@[i] by {
                    assert(l[n - la - 2 + i] == t1[t1.len() - la - 2 + i]);
                    assert(t1[t1.len() - la - 2 + i] == spec_quoted(a@)[1 + i]);
                    assert(l[n - lb - 2 + i] == t2[t2.len() - lb - 2 + i]);
                    assert(t2[t2.len() - lb - 2 + i] == spec_quoted(b@)[1 + i]);
                }
            }
            assert(t1 == t2);
        },
        (Some(a), None) => {
            let la = a@.len() as int;
            assert(t1[t1.len() - 2] == spec_quoted(a@)[la + 1]);
            assert(spec_quoted(a@)[la + 1] == '"');
            assert(l[n - 2] == t1[t1.len() - 2]);
            assert(t2[t2.len() - 2] == "null"@[3]);
            assert(l[n - 2] == t2[t2.len() - 2]);
            assert(false);
        },
        (None, Some(b)) => {
            let lb = b@.len() as int;
            assert(t2[t2.len() - 2] == spec_quoted(b@)[lb + 1]);
            assert(spec_quoted(b@)[lb + 1] == '"');
            assert(l[n - 2] == t2[t2.len() - 2]);
            assert(t1[t1.len() - 2] == "null"@[3]);
            assert(l[n - 2] == t1[t1.len() - 2]);
            assert(false);
        },
    }
    assert(h1 + y1 == h2 + y2) by {
        lemma_drop_common_suffix(h1 + y1, h2 + y2, t1);
    }
    // The yank values agree: none of them is a suffix of another.
    let s = h1 + y1;
    let m = s.len();
    assert(y1.len() == 4 || y1.len() == 5);
    assert(y2.len() == 4 || y2.len() == 5);
    if y1.len() == 4 && y2.len() == 5 {
        assert(y2 == "false"@);
        assert(s[m - 4] == y1[0]);
        assert(s[m - 4] == y2[1]);
        assert(y2[1] == 'a');
        assert(y1[0] == 't' || y1[0] == 'n');
        assert(false);
    }
    if y1.len() == 5 && y2.len() == 4 {
        assert(y1 == "false"@);
        assert(s[m - 4] == y2[0]);
        assert(s[m - 4] == y1[1]);
        assert(y1[1] == 'a');
        assert(y2[0] == 't' || y2[0] == 'n');
        assert(false);
    }
    assert(y1 =~= y2) by {
        assert forall|i: int| 0 <= i < y1.len() implies y1[i] == y2[i] by {
            assert(s[h1.len() + i] == y1[i]);
            assert(s[h2.len() + i] == y2[i]);
        }
    }
    assert(c1.yanked == c2.yanked) by {
        if c1.yanked != c2.yanked {
            assert(y1[0] != y2[0] || y1.len() != y2.len());
        }
    }
    lemma_drop_common_suffix(h1, h2, y1);
}

/// Everything of a record's line after the quoted version number.
pub open spec fn spec_after_vers(c: Crate) -> Seq<char> {
    ",\"deps\":["@ + spec_comma_sep(c.deps@.map_values(|d: Dependency| spec_dep_json(d)))
        + "],\"cksum\":"@ + spec_quoted(c.cksum@) + ",\"features\":{"@ + spec_comma_sep(
        c.features@.map_values(|kv: (String, Vec<String>)| spec_feature_json(kv)),
    ) + "},\"yanked\":"@ + spec_opt_bool_json(c.yanked) + ",\"links\":"@ + spec_opt_str_json(
        c.links,
    ) + "}"@
}

/// Everything of a record's line after the quoted package name.
pub open spec fn spec_after_name(c: Crate) -> Seq<char> {
    ",\"vers\":"@ + spec_quoted(c.vers@) + spec_after_vers(c)
}

#[verifier::rlimit(100)]
#[verifier::spinoff_prover]
proof fn lemma_regroup_name(c: Crate)
    ensures
        spec_crate_line(c) == "{\"name\":"@ + (spec_quoted(c.name@) + spec_after_name(c)),
{
    assert(spec_crate_line(c) =~= "{\"name\":"@ + (spec_quoted(c.name@) + spec_after_name(c)));
}

#[verifier::rlimit(100)]
#[verifier::spinoff_prover]
proof fn lemma_regroup_vers(c: Crate)
    ensures
        spec_after_name(c) == ",\"vers\":"@ + (spec_quoted(c.vers@) + spec_after_vers(c)),
{
    assert(spec_after_name(c) =~= ",\"vers\":"@ + (spec_quoted(c.vers@) + spec_after_vers(c)));
}

/// Records with the same line carry the same package name and version:
/// both are quoted safe strings at fixed positions at the head of the line.
proof fn lemma_line_prefix_deterministic(c1: Crate, c2: Crate)
    requires
        crate_json_safe(c1),
        crate_json_safe(c2),
        spec_crate_line(c1) == spec_crate_line(c2),
    ensures
        c1.name@ == c2.name@,
        c1.vers@ == c2.vers@,
{
    lemma_regroup_name(c1);
    lemma_regroup_name(c2);
    lemma_drop_common_prefix(
        "{\"name\":"@,
        spec_quoted(c1.name@) + spec_after_name(c1),
        spec_quoted(c2.name@) + spec_after_name(c2),
    );
    lemma_quoted_prefix_deterministic(
        c1.name@,
        c2.name@,
        spec_after_name(c1),
        spec_after_name(c2),
    );
    lemma_regroup_vers(c1);
    lemma_regroup_vers(c2);
    lemma_drop_common_prefix(
        ",\"vers\":"@,
        spec_quoted(c1.vers@) + spec_after_vers(c1),
        spec_quoted(c2.vers@) + spec_after_vers(c2),
    );
    lemma_quoted_prefix_deterministic(
        c1.vers@,
        c2.vers@,
        spec_after_vers(c1),
        spec_after_vers(c2),
    );
}

/// Two records with the same line still have the same line after the yank
/// flag of the same named version is rewritten: the rewrite's effect is
/// determined by the bytes of the line alone.
proof fn lemma_flip_entry_line(a: Crate, b: Crate, name: Seq<char>, vers: Seq<char>, y: bool)
    requires
        crate_json_safe(a),
        crate_json_safe(b),
        spec_crate_line(a) == spec_crate_line(b),
    ensures
        spec_crate_line(spec_flip_entry(a, name, vers, y)) == spec_crate_line(
            spec_flip_entry(b, name, vers, y),
        ),
{
    lemma_line_prefix_deterministic(a, b);
    if a.name@ == name && a.vers@ == vers {
        lemma_line_suffix_deterministic(a, b);
        let fa = spec_flip_entry(a, name, vers, y);
        let fb = spec_flip_entry(b, name, vers, y);
        lemma_line_decomposition(fa);
        lemma_line_decomposition(fb);
        assert(spec_line_head(fa) == spec_line_head(a));
        assert(spec_line_head(fb) == spec_line_head(b));
        assert(spec_line_tail(fa) == spec_line_tail(a));
        assert(spec_line_tail(fb) == spec_line_tail(b));
        assert(spec_opt_bool_json(fa.yanked) == spec_opt_bool_json(fb.yanked));
    }
}

/// Sequences whose records render to the same lines render to the same
/// file.
proof fn lemma_render_lines_equal(fs1: Seq<Crate>, fs2: Seq<Crate>)
    requires
        fs1.len() == fs2.len(),
        forall|i: int|
            0 <= i < fs1.len() ==> spec_crate_line(#[trigger] fs1[i]) == spec_crate_line(fs2[i]),
    ensures
        spec_render(fs1) == spec_render(fs2),
    decreases fs1.len(),
{
    if fs1.len() > 0 {
        assert(spec_crate_line(fs1[fs1.len() - 1]) == spec_crate_line(fs2[fs2.len() - 1]));
        assert forall|i: int|
            0 <= i < fs1.drop_last().len() implies spec_crate_line(
            #[trigger] fs1.drop_last()[i],
        ) == spec_crate_line(fs2.drop_last()[i]) by {
            assert(fs1.drop_last()[i] == fs1[i]);
            assert(fs2.drop_last()[i] == fs2[i]);
        }
        lemma_render_lines_equal(fs1.drop_last(), fs2.drop_last());
    }
}

/// The bytes a `SetYanked` rewrite produces are determined by the bytes of
/// the file alone: any two safe record sequences rendering the same file
/// render the same file after the same flag rewrite.
pub proof fn lemma_flip_render_determined(
    es1: Seq<Crate>,
    es2: Seq<Crate>,
    name: Seq<char>,
    vers: Seq<char>,
    y: bool,
)
    requires
        spec_render(es1) == spec_render(es2),
        all_safe(es1),
        all_safe(es2),
    ensures
        spec_render(spec_flip(es1, name, vers, y)) == spec_render(spec_flip(es2, name, vers, y)),
{
    lemma_render_split(es1, es2);
    let fs1 = spec_flip(es1, name, vers, y);
    let fs2 = spec_flip(es2, name, vers, y);
    assert forall|i: int|
        0 <= i < fs1.len() implies spec_crate_line(#[trigger] fs1[i]) == spec_crate_line(
        fs2[i],
    ) by {
        lemma_flip_entry_line(es1[i], es2[i], name, vers, y);
    }
    lemma_render_lines_equal(fs1, fs2);
}

/// Flipping a record's flag keeps it renderable: no other field changes.
proof fn lemma_flip_preserves_safety(es: Seq<Crate>, name: Seq<char>, vers: Seq<char>, y: bool)
    requires
        all_safe(es),
    ensures
        all_safe(spec_flip(es, name, vers, y)),
{
    let fs = spec_flip(es, name, vers, y);
    assert forall|k: int| 0 <= k < fs.len() implies crate_json_safe(#[trigger] fs[k]) by {
        assert(crate_json_safe(es[k]));
    }
}

/// Yank then unyank, at the byte level: whenever both rewrites of a record
/// file succeed — whatever records they parsed the bytes back into — and
/// the named version was recorded unyanked, the final bytes are the
/// original bytes. The two record sequences here are the rewrites' own
/// witnesses, exactly as `set_yanked_lines` returns them.
pub proof fn lemma_yank_unyank_restores(
    es: Seq<Crate>,
    es1: Seq<Crate>,
    es2: Seq<Crate>,
    name: Seq<char>,
    vers: Seq<char>,
)
    requires
        all_safe(es),
        all_safe(es1),
        all_safe(es2),
        forall|k: int|
            0 <= k < es.len() && (#[trigger] es[k]).name@ == name && es[k].vers@ == vers
                ==> es[k].yanked == Some(false),
        spec_render(es1) == spec_render(es),
        spec_render(es2) == spec_render(spec_flip(es1, name, vers, true)),
    ensures
        spec_render(spec_flip(es2, name, vers, false)) == spec_render(es),
{
    lemma_flip_render_determined(es1, es, name, vers, true);
    lemma_flip_preserves_safety(es, name, vers, true);
    lemma_flip_render_determined(es2, spec_flip(es, name, vers, true), name, vers, false);
    lemma_flip_twice(es, name, vers, true, false);
    lemma_yank_roundtrip(es, name, vers);
}

/// Flipping the same version's yank flag twice leaves exactly the effect of
/// the second flip: every other record, and every other field of the named
/// record, is untouched.
pub proof fn lemma_flip_twice(es: Seq<Crate>, name: Seq<char>, vers: Seq<char>, y1: bool, y2: bool)
    ensures
        spec_flip(spec_flip(es, name, vers, y1), name, vers, y2) == spec_flip(es, name, vers, y2),
{
    assert(spec_flip(spec_flip(es, name, vers, y1), name, vers, y2) =~= spec_flip(
        es,
        name,
        vers,
        y2,
    ));
}

/// Yank then unyank restores the record file byte for byte, provided the
/// named version was recorded unyanked — the flag is the only thing either
/// rewrite touches.
pub proof fn lemma_yank_roundtrip(es: Seq<Crate>, name: Seq<char>, vers: Seq<char>)
    requires
        forall|k: int|
            0 <= k < es.len() && (#[trigger] es[k]).name@ == name && es[k].vers@ == vers
                ==> es[k].yanked == Some(false),
    ensures
        spec_render(spec_flip(spec_flip(es, name, vers, true), name, vers, false)) == spec_render(
            es,
        ),
{
    lemma_flip_twice(es, name, vers, true, false);
    assert(spec_flip(es, name, vers, false) =~= es);
}

/// `spec_comma_sep` unrolled one step at the back, for a pushed piece.
proof fn lemma_comma_sep_push(items: Seq<Seq<char>>, piece: Seq<char>)
    ensures
        spec_comma_sep(items.push(piece)) == if items.len() == 0 {
            piece
        } else {
            spec_comma_sep(items) + ","@ + piece
        },
{
    assert(items.push(piece).drop_last() =~= items);
    assert(items.push(piece).last() == piece);
    if items.len() == 0 {
        assert(items.push(piece).len() == 1);
        assert(items.push(piece)[0] == piece);
    }
}

/// `spec_comma_sep` unrolled one step at the front.
proof fn lemma_comma_sep_front(items: Seq<Seq<char>>)
    requires
        items.len() >= 1,
    ensures
        spec_comma_sep(items) == items[0] + (if items.len() == 1 {
            Seq::<char>::empty()
        } else {
            ","@ + spec_comma_sep(items.skip(1))
        }),
    decreases items.len(),
{
    if items.len() == 1 {
        assert(spec_comma_sep(items) == items[0]);
        assert(items[0] + Seq::<char>::empty() =~= items[0]);
        assert(spec_comma_sep(items) == items[0] + Seq::<char>::empty());
    } else if items.len() == 2 {
        assert(items.drop_last().len() == 1);
        assert(spec_comma_sep(items.drop_last()) == items.drop_last()[0]);
        assert(items.drop_last()[0] == items[0]);
        assert(items.skip(1).len() == 1);
        assert(spec_comma_sep(items.skip(1)) == items.skip(1)[0]);
        assert(items.skip(1)[0] == items[1]);
        assert(items.last() == items[1]);
        assert(spec_comma_sep(items) == spec_comma_sep(items.drop_last()) + ","@ + items.last());
        assert(items[0] + (","@ + spec_comma_sep(items.skip(1))) =~= items[0] + ","@ + items[1]);
        assert(spec_comma_sep(items) == items[0] + (","@ + spec_comma_sep(items.skip(1))));
    } else {
        lemma_comma_sep_front(items.drop_last());
        assert(items.skip(1).drop_last() =~= items.drop_last().skip(1));
        assert(items.skip(1).last() == items.last());
        assert(items.drop_last()[0] == items[0]);
        assert(items.skip(1).len() >= 2);
        assert(spec_comma_sep(items.skip(1)) == spec_comma_sep(items.skip(1).drop_last()) + ","@
            + items.skip(1).last());
        assert(spec_comma_sep(items.skip(1)) == spec_comma_sep(items.drop_last().skip(1)) + ","@
            + items.last());
        assert(spec_comma_sep(items) == spec_comma_sep(items.drop_last()) + ","@ + items.last());
        assert(spec_comma_sep(items.drop_last()) == items[0] + (","@ + spec_comma_sep(
            items.drop_last().skip(1),
        )));
        assert(spec_comma_sep(items) =~= items[0] + (","@ + spec_comma_sep(items.skip(1))));
    }
}

/// `spec_comma_sep` unrolled one step at index `i`.
proof fn lemma_comma_sep_step(items: Seq<Seq<char>>, i: int)
    requires
        0 <= i < items.len(),
    ensures
        spec_comma_sep(items.take(i + 1)) == if i == 0 {
            items[0]
        } else {
            spec_comma_sep(items.take(i)) + ","@ + items[i]
        },
{
    let t = items.take(i + 1);
    if i == 0 {
        assert(t.len() == 1);
        assert(t[0] == items[0]);
    } else {
        assert(t.len() >= 2);
        assert(t.drop_last() =~= items.take(i));
        assert(t.last() == items[i]);
    }
}

} // verus!
