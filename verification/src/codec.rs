//! The persisted document format: a JSON-shaped text holding the ordered
//! dimension list. The encoder and parser are both defined here, at the
//! specification level and as executable functions, and parsing an
//! encoded document is proved to give back the same structure.
//!
//! Strings are written between double quotes with `\` and `"` escaped by
//! a backslash; absent values are written `null`; a dimension's `tabs`
//! section may be missing from an older document and defaults to empty.

use vstd::prelude::*;
use vstd::string::StrSliceExecFns;
use vstd::string::StringExecFns;
use crate::dimension::{ConfigModel, Dimension, DimensionConfig, DimensionModel, Tab, TabModel};
use crate::strutil;

verus! {

// ---------------------------------------------------------------- encoder

/// A string's characters with `\` and `"` escaped.
pub open spec fn esc(s: Seq<char>) -> Seq<char>
    decreases s.len(),
{
    if s.len() == 0 {
        Seq::<char>::empty()
    } else {
        (if s[0] == '"' || s[0] == '\\' {
            seq!['\\', s[0]]
        } else {
            seq![s[0]]
        }) + esc(s.drop_first())
    }
}

/// A quoted, escaped string.
pub open spec fn enc_str(s: Seq<char>) -> Seq<char> {
    seq!['"'] + esc(s) + seq!['"']
}

/// A quoted string or `null`.
pub open spec fn enc_opt_str(o: Option<Seq<char>>) -> Seq<char> {
    match o {
        Some(s) => enc_str(s),
        None => "null"@,
    }
}

/// `true` or `false`.
pub open spec fn enc_bool(b: bool) -> Seq<char> {
    if b {
        "true"@
    } else {
        "false"@
    }
}

/// One tab template.
#[verifier::opaque]
pub open spec fn enc_tab(t: TabModel) -> Seq<char> {
    "{\"name\":"@ + enc_str(t.name) + ",\"command\":"@ + enc_opt_str(t.command)
        + ",\"working_dir\":"@ + enc_opt_str(t.working_dir) + "}"@
}

/// The tabs of a dimension, comma-separated.
pub open spec fn enc_tab_items(tabs: Seq<TabModel>) -> Seq<char>
    decreases tabs.len(),
{
    if tabs.len() == 0 {
        Seq::<char>::empty()
    } else if tabs.len() == 1 {
        enc_tab(tabs[0])
    } else {
        enc_tab(tabs[0]) + seq![','] + enc_tab_items(tabs.drop_first())
    }
}

/// One dimension.
#[verifier::opaque]
pub open spec fn enc_dim(d: DimensionModel) -> Seq<char> {
    "{\"name\":"@ + enc_str(d.name) + ",\"tabs\":["@ + enc_tab_items(d.tabs) + "],\"base_dir\":"@
        + enc_opt_str(d.base_dir) + ",\"collapsed\":"@ + enc_bool(d.collapsed) + "}"@
}

/// The dimensions of the document, comma-separated.
pub open spec fn enc_dim_items(dims: Seq<DimensionModel>) -> Seq<char>
    decreases dims.len(),
{
    if dims.len() == 0 {
        Seq::<char>::empty()
    } else if dims.len() == 1 {
        enc_dim(dims[0])
    } else {
        enc_dim(dims[0]) + seq![','] + enc_dim_items(dims.drop_first())
    }
}

/// The whole document.
pub open spec fn enc_config(c: ConfigModel) -> Seq<char> {
    "{\"dimensions\":["@ + enc_dim_items(c.dimensions) + "],\"active_dimension\":"@ + enc_opt_str(
        c.active_dimension,
    ) + "}"@
}

// ----------------------------------------------------------------- parser

/// Consumes an exact literal.
pub open spec fn parse_lit(s: Seq<char>, i: int, lit: Seq<char>) -> Option<int> {
    if 0 <= i && i + lit.len() <= s.len() && s.subrange(i, i + lit.len() as int) == lit {
        Some(i + lit.len() as int)
    } else {
        None
    }
}

/// Consumes the characters of a string up to and including its closing
/// quote; a backslash takes the next character verbatim.
pub open spec fn parse_string_body(s: Seq<char>, i: int) -> Option<(Seq<char>, int)>
    decreases s.len() - i,
{
    if i < 0 || i >= s.len() {
        None
    } else if s[i] == '"' {
        Some((Seq::<char>::empty(), i + 1))
    } else if s[i] == '\\' {
        if i + 1 < s.len() {
            match parse_string_body(s, i + 2) {
                Some(p) => Some((seq![s[i + 1]] + p.0, p.1)),
                None => None,
            }
        } else {
            None
        }
    } else {
        match parse_string_body(s, i + 1) {
            Some(p) => Some((seq![s[i]] + p.0, p.1)),
            None => None,
        }
    }
}

/// Consumes a quoted string.
pub open spec fn parse_string(s: Seq<char>, i: int) -> Option<(Seq<char>, int)> {
    if 0 <= i < s.len() && s[i] == '"' {
        parse_string_body(s, i + 1)
    } else {
        None
    }
}

/// Consumes a quoted string or `null`.
pub open spec fn parse_opt_string(s: Seq<char>, i: int) -> Option<(Option<Seq<char>>, int)> {
    match parse_lit(s, i, "null"@) {
        Some(j) => Some((None, j)),
        None => match parse_string(s, i) {
            Some(p) => Some((Some(p.0), p.1)),
            None => None,
        },
    }
}

/// Consumes `true` or `false`.
pub open spec fn parse_bool(s: Seq<char>, i: int) -> Option<(bool, int)> {
    match parse_lit(s, i, "true"@) {
        Some(j) => Some((true, j)),
        None => match parse_lit(s, i, "false"@) {
            Some(j) => Some((false, j)),
            None => None,
        },
    }
}

/// Consumes one tab template.
#[verifier::opaque]
pub open spec fn parse_tab(s: Seq<char>, i: int) -> Option<(TabModel, int)> {
    match parse_lit(s, i, "{\"name\":"@) {
        None => None,
        Some(i1) => match parse_string(s, i1) {
            None => None,
            Some((nm, i2)) => match parse_lit(s, i2, ",\"command\":"@) {
                None => None,
                Some(i3) => match parse_opt_string(s, i3) {
                    None => None,
                    Some((cmd, i4)) => match parse_lit(s, i4, ",\"working_dir\":"@) {
                        None => None,
                        Some(i5) => match parse_opt_string(s, i5) {
                            None => None,
                            Some((wd, i6)) => match parse_lit(s, i6, "}"@) {
                                None => None,
                                Some(i7) => Some(
                                    (TabModel { name: nm, command: cmd, working_dir: wd }, i7),
                                ),
                            },
                        },
                    },
                },
            },
        },
    }
}

/// The next position a list parser continues from: where the element
/// parser stopped, clamped so that the scan always advances.
pub open spec fn advance(s: Seq<char>, i: int, j: int) -> int {
    if i < j <= s.len() {
        j
    } else {
        s.len() as int
    }
}

/// Consumes tab templates up to and including the closing bracket.
pub open spec fn parse_tab_items(s: Seq<char>, i: int) -> Option<(Seq<TabModel>, int)>
    decreases s.len() - i,
{
    if i < 0 || i >= s.len() {
        None
    } else if s[i] == ']' {
        Some((Seq::<TabModel>::empty(), i + 1))
    } else {
        match parse_tab(s, i) {
            None => None,
            Some((t, j0)) => {
                let j = advance(s, i, j0);
                if j < s.len() && s[j] == ',' {
                    match parse_tab_items(s, j + 1) {
                        Some(p) => Some((seq![t] + p.0, p.1)),
                        None => None,
                    }
                } else if j < s.len() && s[j] == ']' {
                    Some((seq![t], j + 1))
                } else {
                    None
                }
            },
        }
    }
}

/// Consumes one dimension; a missing `tabs` section means no tabs.
#[verifier::opaque]
pub open spec fn parse_dimension(s: Seq<char>, i: int) -> Option<(DimensionModel, int)> {
    match parse_lit(s, i, "{\"name\":"@) {
        None => None,
        Some(i1) => match parse_string(s, i1) {
            None => None,
            Some((nm, i2)) => {
                let tabs_part = match parse_lit(s, i2, ",\"tabs\":["@) {
                    Some(i3) => parse_tab_items(s, i3),
                    None => Some((Seq::<TabModel>::empty(), i2)),
                };
                match tabs_part {
                    None => None,
                    Some((tabs, i4)) => match parse_lit(s, i4, ",\"base_dir\":"@) {
                        None => None,
                        Some(i5) => match parse_opt_string(s, i5) {
                            None => None,
                            Some((bd, i6)) => match parse_lit(s, i6, ",\"collapsed\":"@) {
                                None => None,
                                Some(i7) => match parse_bool(s, i7) {
                                    None => None,
                                    Some((col, i8)) => match parse_lit(s, i8, "}"@) {
                                        None => None,
                                        Some(i9) => Some(
                                            (
                                                DimensionModel {
                                                    name: nm,
                                                    tabs,
                                                    base_dir: bd,
                                                    collapsed: col,
                                                },
                                                i9,
                                            ),
                                        ),
                                    },
                                },
                            },
                        },
                    },
                }
            },
        },
    }
}

/// Consumes dimensions up to and including the closing bracket.
pub open spec fn parse_dim_items(s: Seq<char>, i: int) -> Option<(Seq<DimensionModel>, int)>
    decreases s.len() - i,
{
    if i < 0 || i >= s.len() {
        None
    } else if s[i] == ']' {
        Some((Seq::<DimensionModel>::empty(), i + 1))
    } else {
        match parse_dimension(s, i) {
            None => None,
            Some((d, j0)) => {
                let j = advance(s, i, j0);
                if j < s.len() && s[j] == ',' {
                    match parse_dim_items(s, j + 1) {
                        Some(p) => Some((seq![d] + p.0, p.1)),
                        None => None,
                    }
                } else if j < s.len() && s[j] == ']' {
                    Some((seq![d], j + 1))
                } else {
                    None
                }
            },
        }
    }
}

/// Parses a whole document; anything but a full, exact document is
/// refused.
pub open spec fn parse_config(s: Seq<char>) -> Option<ConfigModel> {
    match parse_lit(s, 0, "{\"dimensions\":["@) {
        None => None,
        Some(i1) => match parse_dim_items(s, i1) {
            None => None,
            Some((dims, i2)) => match parse_lit(s, i2, ",\"active_dimension\":"@) {
                None => None,
                Some(i3) => match parse_opt_string(s, i3) {
                    None => None,
                    Some((act, i4)) => match parse_lit(s, i4, "}"@) {
                        None => None,
                        Some(i5) => if i5 == s.len() {
                            Some(ConfigModel { dimensions: dims, active_dimension: act })
                        } else {
                            None
                        },
                    },
                },
            },
        },
    }
}

// ------------------------------------------------------------ round trip

proof fn lemma_rt_lit(pre: Seq<char>, lit: Seq<char>, tail: Seq<char>)
    ensures
        parse_lit(pre + lit + tail, pre.len() as int, lit) == Some(
            pre.len() as int + lit.len(),
        ),
{
    let s = pre + lit + tail;
    assert(s.subrange(pre.len() as int, pre.len() + lit.len() as int) =~= lit);
}

proof fn lemma_rt_string_body(pre: Seq<char>, content: Seq<char>, tail: Seq<char>)
    ensures
        parse_string_body(pre + esc(content) + seq!['"'] + tail, pre.len() as int) == Some(
            (content, pre.len() as int + esc(content).len() + 1),
        ),
    decreases content.len(),
{
    let s = pre + esc(content) + seq!['"'] + tail;
    if content.len() == 0 {
        assert(esc(content) =~= Seq::<char>::empty());
        assert(s[pre.len() as int] == '"');
    } else {
        let c = content[0];
        let rest = content.drop_first();
        assert(seq![c] + rest =~= content);
        if c == '"' || c == '\\' {
            assert(esc(content) == seq!['\\', c] + esc(rest));
            assert(s[pre.len() as int] == '\\');
            assert(s[pre.len() as int + 1] == c);
            assert(s =~= (pre + seq!['\\', c]) + esc(rest) + seq!['"'] + tail) by {};
            lemma_rt_string_body(pre + seq!['\\', c], rest, tail);
            assert(parse_string_body(s, pre.len() as int + 2) == Some(
                (rest, pre.len() as int + 2 + esc(rest).len() + 1),
            ));
        } else {
            assert(esc(content) == seq![c] + esc(rest));
            assert(s[pre.len() as int] == c);
            assert(s =~= (pre + seq![c]) + esc(rest) + seq!['"'] + tail) by {};
            lemma_rt_string_body(pre + seq![c], rest, tail);
            assert(parse_string_body(s, pre.len() as int + 1) == Some(
                (rest, pre.len() as int + 1 + esc(rest).len() + 1),
            ));
        }
    }
}

proof fn lemma_rt_string(pre: Seq<char>, content: Seq<char>, tail: Seq<char>)
    ensures
        parse_string(pre + enc_str(content) + tail, pre.len() as int) == Some(
            (content, pre.len() as int + enc_str(content).len()),
        ),
{
    let s = pre + enc_str(content) + tail;
    assert(s[pre.len() as int] == '"');
    assert(s =~= (pre + seq!['"']) + esc(content) + seq!['"'] + tail) by {};
    lemma_rt_string_body(pre + seq!['"'], content, tail);
}

proof fn lemma_rt_opt_string(pre: Seq<char>, o: Option<Seq<char>>, tail: Seq<char>)
    ensures
        parse_opt_string(pre + enc_opt_str(o) + tail, pre.len() as int) == Some(
            (o, pre.len() as int + enc_opt_str(o).len()),
        ),
{
    reveal_strlit("null");
    let s = pre + enc_opt_str(o) + tail;
    match o {
        None => {
            lemma_rt_lit(pre, "null"@, tail);
        },
        Some(v) => {
            let i = pre.len() as int;
            assert(s[i] == '"');
            if i + 4 <= s.len() {
                assert(s.subrange(i, i + 4)[0] == '"');
                assert("null"@[0] == 'n');
                assert(s.subrange(i, i + 4) != "null"@);
            }
            assert(parse_lit(s, i, "null"@) is None);
            lemma_rt_string(pre, v, tail);
        },
    }
}

proof fn lemma_rt_bool(pre: Seq<char>, b: bool, tail: Seq<char>)
    ensures
        parse_bool(pre + enc_bool(b) + tail, pre.len() as int) == Some(
            (b, pre.len() as int + enc_bool(b).len()),
        ),
{
    reveal_strlit("true");
    reveal_strlit("false");
    let s = pre + enc_bool(b) + tail;
    let i = pre.len() as int;
    if b {
        lemma_rt_lit(pre, "true"@, tail);
    } else {
        assert(s[i] == 'f');
        if i + 4 <= s.len() {
            assert(s.subrange(i, i + 4)[0] == 'f');
            assert("true"@[0] == 't');
            assert(s.subrange(i, i + 4) != "true"@);
        }
        assert(parse_lit(s, i, "true"@) is None);
        lemma_rt_lit(pre, "false"@, tail);
    }
}

#[verifier::rlimit(100)]
proof fn lemma_rt_tab_front(pre: Seq<char>, t: TabModel, tail: Seq<char>)
    ensures
        ({
            let s = pre + enc_tab(t) + tail;
            let i0 = pre.len() as int;
            let i1 = i0 + "{\"name\":"@.len();
            let i2 = i1 + enc_str(t.name).len();
            let i3 = i2 + ",\"command\":"@.len();
            let i4 = i3 + enc_opt_str(t.command).len();
            &&& parse_lit(s, i0, "{\"name\":"@) == Some(i1)
            &&& parse_string(s, i1) == Some((t.name, i2))
            &&& parse_lit(s, i2, ",\"command\":"@) == Some(i3)
            &&& parse_opt_string(s, i3) == Some((t.command, i4))
        }),
{
    reveal(enc_tab);
    let s = pre + enc_tab(t) + tail;
    let l1 = "{\"name\":"@;
    let l2 = ",\"command\":"@;
    let l3 = ",\"working_dir\":"@;
    let l4 = "}"@;
    let p1 = pre + l1;
    let p2 = p1 + enc_str(t.name);
    let p3 = p2 + l2;
    let rest1 = enc_str(t.name) + l2 + enc_opt_str(t.command) + l3 + enc_opt_str(t.working_dir)
        + l4 + tail;
    assert(s =~= pre + l1 + rest1) by {};
    lemma_rt_lit(pre, l1, rest1);
    let rest2 = l2 + enc_opt_str(t.command) + l3 + enc_opt_str(t.working_dir) + l4 + tail;
    assert(s =~= p1 + enc_str(t.name) + rest2) by {};
    lemma_rt_string(p1, t.name, rest2);
    let rest3 = enc_opt_str(t.command) + l3 + enc_opt_str(t.working_dir) + l4 + tail;
    assert(s =~= p2 + l2 + rest3) by {};
    lemma_rt_lit(p2, l2, rest3);
    let rest4 = l3 + enc_opt_str(t.working_dir) + l4 + tail;
    assert(s =~= p3 + enc_opt_str(t.command) + rest4) by {};
    lemma_rt_opt_string(p3, t.command, rest4);
}

#[verifier::rlimit(100)]
proof fn lemma_rt_tab_back(pre: Seq<char>, t: TabModel, tail: Seq<char>)
    ensures
        ({
            let s = pre + enc_tab(t) + tail;
            let i4 = pre.len() as int + "{\"name\":"@.len() + enc_str(t.name).len()
                + ",\"command\":"@.len() + enc_opt_str(t.command).len();
            let i5 = i4 + ",\"working_dir\":"@.len();
            let i6 = i5 + enc_opt_str(t.working_dir).len();
            let i7 = i6 + 1;
            &&& parse_lit(s, i4, ",\"working_dir\":"@) == Some(i5)
            &&& parse_opt_string(s, i5) == Some((t.working_dir, i6))
            &&& parse_lit(s, i6, "}"@) == Some(i7)
            &&& i7 == pre.len() + enc_tab(t).len()
        }),
{
    reveal(enc_tab);
    reveal_strlit("}");
    let s = pre + enc_tab(t) + tail;
    let l1 = "{\"name\":"@;
    let l2 = ",\"command\":"@;
    let l3 = ",\"working_dir\":"@;
    let l4 = "}"@;
    let p4 = pre + l1 + enc_str(t.name) + l2 + enc_opt_str(t.command);
    let p5 = p4 + l3;
    let p6 = p5 + enc_opt_str(t.working_dir);
    let rest5 = enc_opt_str(t.working_dir) + l4 + tail;
    assert(s =~= p4 + l3 + rest5) by {};
    lemma_rt_lit(p4, l3, rest5);
    assert(s =~= p5 + enc_opt_str(t.working_dir) + (l4 + tail)) by {};
    lemma_rt_opt_string(p5, t.working_dir, l4 + tail);
    assert(s =~= p6 + l4 + tail) by {};
    lemma_rt_lit(p6, l4, tail);
}

#[verifier::rlimit(100)]
proof fn lemma_rt_tab(pre: Seq<char>, t: TabModel, tail: Seq<char>)
    ensures
        parse_tab(pre + enc_tab(t) + tail, pre.len() as int) == Some(
            (t, pre.len() as int + enc_tab(t).len()),
        ),
{
    reveal(parse_tab);
    lemma_rt_tab_front(pre, t, tail);
    lemma_rt_tab_back(pre, t, tail);
}

proof fn lemma_enc_tab_first_char(t: TabModel)
    ensures
        enc_tab(t).len() > 0,
        enc_tab(t)[0] == '{',
{
    reveal(enc_tab);
    reveal_strlit("{\"name\":");
}

proof fn lemma_enc_dim_first_char(d: DimensionModel)
    ensures
        enc_dim(d).len() > 0,
        enc_dim(d)[0] == '{',
{
    reveal(enc_dim);
    reveal_strlit("{\"name\":");
}

#[verifier::rlimit(100)]
proof fn lemma_rt_tab_items_one(pre: Seq<char>, t0: TabModel, tail: Seq<char>)
    ensures
        ({
            let s = pre + enc_tab(t0) + seq![']'] + tail;
            let j = pre.len() as int + enc_tab(t0).len();
            &&& parse_tab(s, pre.len() as int) == Some((t0, j))
            &&& j < s.len()
            &&& s[j] == ']'
        }),
{
    let s = pre + enc_tab(t0) + seq![']'] + tail;
    assert(s =~= pre + enc_tab(t0) + (seq![']'] + tail)) by {};
    lemma_rt_tab(pre, t0, seq![']'] + tail);
}

#[verifier::rlimit(100)]
proof fn lemma_rt_tab_items_cons(
    pre: Seq<char>,
    t0: TabModel,
    rest: Seq<TabModel>,
    tail: Seq<char>,
)
    ensures
        ({
            let s = pre + (enc_tab(t0) + seq![','] + enc_tab_items(rest)) + seq![']'] + tail;
            let j = pre.len() as int + enc_tab(t0).len();
            &&& parse_tab(s, pre.len() as int) == Some((t0, j))
            &&& j < s.len()
            &&& s[j] == ','
            &&& s =~= (pre + enc_tab(t0) + seq![',']) + enc_tab_items(rest) + seq![']'] + tail
        }),
{
    let s = pre + (enc_tab(t0) + seq![','] + enc_tab_items(rest)) + seq![']'] + tail;
    assert(s =~= pre + enc_tab(t0) + (seq![','] + enc_tab_items(rest) + seq![']'] + tail)) by {};
    lemma_rt_tab(pre, t0, seq![','] + enc_tab_items(rest) + seq![']'] + tail);
    assert(s =~= (pre + enc_tab(t0) + seq![',']) + enc_tab_items(rest) + seq![']'] + tail) by {};
}

#[verifier::rlimit(100)]
proof fn lemma_rt_tab_items(pre: Seq<char>, tabs: Seq<TabModel>, tail: Seq<char>)
    ensures
        parse_tab_items(pre + enc_tab_items(tabs) + seq![']'] + tail, pre.len() as int) == Some(
            (tabs, pre.len() as int + enc_tab_items(tabs).len() + 1),
        ),
    decreases tabs.len(),
{
    let s = pre + enc_tab_items(tabs) + seq![']'] + tail;
    let i = pre.len() as int;
    if tabs.len() == 0 {
        assert(enc_tab_items(tabs) =~= Seq::<char>::empty());
        assert(s[i] == ']');
    } else {
        let t0 = tabs[0];
        lemma_enc_tab_first_char(t0);
        assert(s[i] == '{');
        if tabs.len() == 1 {
            assert(enc_tab_items(tabs) == enc_tab(t0));
            lemma_rt_tab_items_one(pre, t0, tail);
            assert(seq![t0] =~= tabs);
        } else {
            let rest = tabs.drop_first();
            assert(enc_tab_items(tabs) == enc_tab(t0) + seq![','] + enc_tab_items(rest));
            lemma_rt_tab_items_cons(pre, t0, rest, tail);
            lemma_rt_tab_items(pre + enc_tab(t0) + seq![','], rest, tail);
            assert(seq![t0] + rest =~= tabs);
        }
    }
}

#[verifier::rlimit(100)]
proof fn lemma_rt_dimension_front1(pre: Seq<char>, d: DimensionModel, tail: Seq<char>)
    ensures
        ({
            let s = pre + enc_dim(d) + tail;
            let i0 = pre.len() as int;
            let i1 = i0 + "{\"name\":"@.len();
            let i2 = i1 + enc_str(d.name).len();
            &&& parse_lit(s, i0, "{\"name\":"@) == Some(i1)
            &&& parse_string(s, i1) == Some((d.name, i2))
        }),
{
    reveal(enc_dim);
    let s = pre + enc_dim(d) + tail;
    let l1 = "{\"name\":"@;
    let l2 = ",\"tabs\":["@;
    let l3 = "],\"base_dir\":"@;
    let l4 = ",\"collapsed\":"@;
    let l5 = "}"@;
    let p1 = pre + l1;
    let rest1 = enc_str(d.name) + l2 + enc_tab_items(d.tabs) + l3 + enc_opt_str(d.base_dir) + l4
        + enc_bool(d.collapsed) + l5 + tail;
    assert(s =~= pre + l1 + rest1) by {};
    lemma_rt_lit(pre, l1, rest1);
    let rest2 = l2 + enc_tab_items(d.tabs) + l3 + enc_opt_str(d.base_dir) + l4 + enc_bool(
        d.collapsed,
    ) + l5 + tail;
    assert(s =~= p1 + enc_str(d.name) + rest2) by {};
    lemma_rt_string(p1, d.name, rest2);
}

#[verifier::rlimit(100)]
proof fn lemma_rt_dimension_front2(pre: Seq<char>, d: DimensionModel, tail: Seq<char>)
    ensures
        ({
            let s = pre + enc_dim(d) + tail;
            let i2 = pre.len() as int + "{\"name\":"@.len() + enc_str(d.name).len();
            let i3 = i2 + ",\"tabs\":["@.len();
            let i4 = i3 + enc_tab_items(d.tabs).len() + 1;
            &&& parse_lit(s, i2, ",\"tabs\":["@) == Some(i3)
            &&& parse_tab_items(s, i3) == Some((d.tabs, i4))
        }),
{
    reveal(enc_dim);
    reveal_strlit("],\"base_dir\":");
    reveal_strlit(",\"base_dir\":");
    let s = pre + enc_dim(d) + tail;
    let l1 = "{\"name\":"@;
    let l2 = ",\"tabs\":["@;
    let l3 = "],\"base_dir\":"@;
    let l3b = ",\"base_dir\":"@;
    let l4 = ",\"collapsed\":"@;
    let l5 = "}"@;
    assert(l3 =~= seq![']'] + l3b);
    let p2 = pre + l1 + enc_str(d.name);
    let p3 = p2 + l2;
    let rest3 = enc_tab_items(d.tabs) + l3 + enc_opt_str(d.base_dir) + l4 + enc_bool(d.collapsed)
        + l5 + tail;
    assert(s =~= p2 + l2 + rest3) by {};
    lemma_rt_lit(p2, l2, rest3);
    let rest4 = l3b + enc_opt_str(d.base_dir) + l4 + enc_bool(d.collapsed) + l5 + tail;
    assert(s =~= p3 + enc_tab_items(d.tabs) + seq![']'] + rest4) by {};
    lemma_rt_tab_items(p3, d.tabs, rest4);
}

#[verifier::rlimit(100)]
proof fn lemma_rt_dimension_back(pre: Seq<char>, d: DimensionModel, tail: Seq<char>)
    ensures
        ({
            let s = pre + enc_dim(d) + tail;
            let i4 = pre.len() as int + "{\"name\":"@.len() + enc_str(d.name).len()
                + ",\"tabs\":["@.len() + enc_tab_items(d.tabs).len() + 1;
            let i5 = i4 + ",\"base_dir\":"@.len();
            let i6 = i5 + enc_opt_str(d.base_dir).len();
            let i7 = i6 + ",\"collapsed\":"@.len();
            let i8 = i7 + enc_bool(d.collapsed).len();
            let i9 = i8 + 1;
            &&& parse_lit(s, i4, ",\"base_dir\":"@) == Some(i5)
            &&& parse_opt_string(s, i5) == Some((d.base_dir, i6))
            &&& parse_lit(s, i6, ",\"collapsed\":"@) == Some(i7)
            &&& parse_bool(s, i7) == Some((d.collapsed, i8))
            &&& parse_lit(s, i8, "}"@) == Some(i9)
            &&& i9 == pre.len() + enc_dim(d).len()
        }),
{
    reveal(enc_dim);
    reveal_strlit("],\"base_dir\":");
    reveal_strlit(",\"base_dir\":");
    reveal_strlit("}");
    let s = pre + enc_dim(d) + tail;
    let l1 = "{\"name\":"@;
    let l2 = ",\"tabs\":["@;
    let l3 = "],\"base_dir\":"@;
    let l3b = ",\"base_dir\":"@;
    let l4 = ",\"collapsed\":"@;
    let l5 = "}"@;
    assert(l3 =~= seq![']'] + l3b);
    let p4 = pre + l1 + enc_str(d.name) + l2 + enc_tab_items(d.tabs) + seq![']'];
    let p5 = p4 + l3b;
    let p6 = p5 + enc_opt_str(d.base_dir);
    let p7 = p6 + l4;
    let p8 = p7 + enc_bool(d.collapsed);
    let rest5 = enc_opt_str(d.base_dir) + l4 + enc_bool(d.collapsed) + l5 + tail;
    assert(s =~= p4 + l3b + rest5) by {};
    lemma_rt_lit(p4, l3b, rest5);
    let rest6 = l4 + enc_bool(d.collapsed) + l5 + tail;
    assert(s =~= p5 + enc_opt_str(d.base_dir) + rest6) by {};
    lemma_rt_opt_string(p5, d.base_dir, rest6);
    let rest7 = enc_bool(d.collapsed) + l5 + tail;
    assert(s =~= p6 + l4 + rest7) by {};
    lemma_rt_lit(p6, l4, rest7);
    assert(s =~= p7 + enc_bool(d.collapsed) + (l5 + tail)) by {};
    lemma_rt_bool(p7, d.collapsed, l5 + tail);
    assert(s =~= p8 + l5 + tail) by {};
    lemma_rt_lit(p8, l5, tail);
}

#[verifier::rlimit(100)]
proof fn lemma_rt_dimension(pre: Seq<char>, d: DimensionModel, tail: Seq<char>)
    ensures
        parse_dimension(pre + enc_dim(d) + tail, pre.len() as int) == Some(
            (d, pre.len() as int + enc_dim(d).len()),
        ),
{
    reveal(parse_dimension);
    lemma_rt_dimension_front1(pre, d, tail);
    lemma_rt_dimension_front2(pre, d, tail);
    lemma_rt_dimension_back(pre, d, tail);
}

#[verifier::rlimit(100)]
proof fn lemma_rt_dim_items_one(pre: Seq<char>, d0: DimensionModel, tail: Seq<char>)
    ensures
        ({
            let s = pre + enc_dim(d0) + seq![']'] + tail;
            let j = pre.len() as int + enc_dim(d0).len();
            &&& parse_dimension(s, pre.len() as int) == Some((d0, j))
            &&& j < s.len()
            &&& s[j] == ']'
        }),
{
    let s = pre + enc_dim(d0) + seq![']'] + tail;
    assert(s =~= pre + enc_dim(d0) + (seq![']'] + tail)) by {};
    lemma_rt_dimension(pre, d0, seq![']'] + tail);
}

#[verifier::rlimit(100)]
proof fn lemma_rt_dim_items_cons(
    pre: Seq<char>,
    d0: DimensionModel,
    rest: Seq<DimensionModel>,
    tail: Seq<char>,
)
    ensures
        ({
            let s = pre + (enc_dim(d0) + seq![','] + enc_dim_items(rest)) + seq![']'] + tail;
            let j = pre.len() as int + enc_dim(d0).len();
            &&& parse_dimension(s, pre.len() as int) == Some((d0, j))
            &&& j < s.len()
            &&& s[j] == ','
            &&& s =~= (pre + enc_dim(d0) + seq![',']) + enc_dim_items(rest) + seq![']'] + tail
        }),
{
    let s = pre + (enc_dim(d0) + seq![','] + enc_dim_items(rest)) + seq![']'] + tail;
    assert(s =~= pre + enc_dim(d0) + (seq![','] + enc_dim_items(rest) + seq![']'] + tail)) by {};
    lemma_rt_dimension(pre, d0, seq![','] + enc_dim_items(rest) + seq![']'] + tail);
    assert(s =~= (pre + enc_dim(d0) + seq![',']) + enc_dim_items(rest) + seq![']'] + tail) by {};
}

#[verifier::rlimit(100)]
proof fn lemma_rt_dim_items(pre: Seq<char>, dims: Seq<DimensionModel>, tail: Seq<char>)
    ensures
        parse_dim_items(pre + enc_dim_items(dims) + seq![']'] + tail, pre.len() as int) == Some(
            (dims, pre.len() as int + enc_dim_items(dims).len() + 1),
        ),
    decreases dims.len(),
{
    let s = pre + enc_dim_items(dims) + seq![']'] + tail;
    let i = pre.len() as int;
    let goal = Some((dims, pre.len() as int + enc_dim_items(dims).len() + 1));
    if dims.len() == 0 {
        assert(parse_dim_items(s, i) == goal) by {
            assert(enc_dim_items(dims) =~= Seq::<char>::empty());
            assert(s[i] == ']');
        }
    } else {
        let d0 = dims[0];
        if dims.len() == 1 {
            assert(parse_dim_items(s, i) == goal) by {
                lemma_enc_dim_first_char(d0);
                assert(s[i] == '{');
                assert(enc_dim_items(dims) == enc_dim(d0));
                lemma_rt_dim_items_one(pre, d0, tail);
                assert(seq![d0] =~= dims);
            }
        } else {
            let rest = dims.drop_first();
            lemma_rt_dim_items(pre + enc_dim(d0) + seq![','], rest, tail);
            assert(parse_dim_items(s, i) == goal) by {
                lemma_enc_dim_first_char(d0);
                assert(s[i] == '{');
                assert(enc_dim_items(dims) == enc_dim(d0) + seq![','] + enc_dim_items(rest));
                lemma_rt_dim_items_cons(pre, d0, rest, tail);
                assert(seq![d0] + rest =~= dims);
            }
        }
    }
}

#[verifier::rlimit(100)]
proof fn lemma_rt_config_front(c: ConfigModel)
    ensures
        ({
            let s = enc_config(c);
            let i1 = "{\"dimensions\":["@.len() as int;
            let i2 = i1 + enc_dim_items(c.dimensions).len() + 1;
            &&& parse_lit(s, 0, "{\"dimensions\":["@) == Some(i1)
            &&& parse_dim_items(s, i1) == Some((c.dimensions, i2))
        }),
{
    reveal_strlit("],\"active_dimension\":");
    reveal_strlit(",\"active_dimension\":");
    let h = "{\"dimensions\":["@;
    let m = "],\"active_dimension\":"@;
    let mb = ",\"active_dimension\":"@;
    let t = "}"@;
    assert(m =~= seq![']'] + mb);
    let s = enc_config(c);
    let p1 = Seq::<char>::empty() + h;
    let rest1 = enc_dim_items(c.dimensions) + m + enc_opt_str(c.active_dimension) + t;
    assert(s =~= Seq::<char>::empty() + h + rest1) by {};
    lemma_rt_lit(Seq::<char>::empty(), h, rest1);
    let rest2 = mb + enc_opt_str(c.active_dimension) + t;
    assert(s =~= p1 + enc_dim_items(c.dimensions) + seq![']'] + rest2) by {};
    lemma_rt_dim_items(p1, c.dimensions, rest2);
}

#[verifier::rlimit(100)]
proof fn lemma_rt_config_back(c: ConfigModel)
    ensures
        ({
            let s = enc_config(c);
            let i2 = "{\"dimensions\":["@.len() as int + enc_dim_items(c.dimensions).len() + 1;
            let i3 = i2 + ",\"active_dimension\":"@.len();
            let i4 = i3 + enc_opt_str(c.active_dimension).len();
            let i5 = i4 + 1;
            &&& parse_lit(s, i2, ",\"active_dimension\":"@) == Some(i3)
            &&& parse_opt_string(s, i3) == Some((c.active_dimension, i4))
            &&& parse_lit(s, i4, "}"@) == Some(i5)
            &&& i5 == s.len()
        }),
{
    reveal_strlit("],\"active_dimension\":");
    reveal_strlit(",\"active_dimension\":");
    reveal_strlit("}");
    let h = "{\"dimensions\":["@;
    let m = "],\"active_dimension\":"@;
    let mb = ",\"active_dimension\":"@;
    let t = "}"@;
    assert(m =~= seq![']'] + mb);
    let s = enc_config(c);
    let p2 = (Seq::<char>::empty() + h) + enc_dim_items(c.dimensions) + seq![']'];
    let p3 = p2 + mb;
    let p4 = p3 + enc_opt_str(c.active_dimension);
    let rest3 = enc_opt_str(c.active_dimension) + t;
    assert(s =~= p2 + mb + rest3) by {};
    lemma_rt_lit(p2, mb, rest3);
    assert(s =~= p3 + enc_opt_str(c.active_dimension) + t) by {};
    lemma_rt_opt_string(p3, c.active_dimension, t);
    assert(s =~= p4 + t + Seq::<char>::empty()) by {};
    lemma_rt_lit(p4, t, Seq::<char>::empty());
}

/// Parsing an encoded document gives back the same ordered
/// dimension/tab structure, field for field.
#[verifier::rlimit(100)]
pub proof fn lemma_round_trip(c: ConfigModel)
    ensures
        parse_config(enc_config(c)) == Some(c),
{
    lemma_rt_config_front(c);
    lemma_rt_config_back(c);
}

// ------------------------------------------------------- encoder, executable

/// Unrolling `esc` one character at a time, front to back.
proof fn lemma_esc_take_step(s: Seq<char>, i: int)
    requires
        0 <= i < s.len(),
    ensures
        esc(s.take(i + 1)) == esc(s.take(i)) + (if s[i] == '"' || s[i] == '\\' {
            seq!['\\', s[i]]
        } else {
            seq![s[i]]
        }),
    decreases i,
{
    let a = s.take(i + 1);
    if i == 0 {
        assert(a.drop_first() =~= s.take(0));
        assert(esc(s.take(0)) =~= Seq::<char>::empty());
        assert(esc(a) =~= (if s[0] == '"' || s[0] == '\\' {
            seq!['\\', s[0]]
        } else {
            seq![s[0]]
        }));
    } else {
        assert(a.drop_first() =~= s.drop_first().take(i));
        assert(s.take(i).drop_first() =~= s.drop_first().take(i - 1));
        lemma_esc_take_step(s.drop_first(), i - 1);
        assert(s.drop_first()[i - 1] == s[i]);
        assert(a[0] == s[0]);
        assert(s.take(i)[0] == s[0]);
        assert(esc(a) =~= esc(s.take(i)) + (if s[i] == '"' || s[i] == '\\' {
            seq!['\\', s[i]]
        } else {
            seq![s[i]]
        }));
    }
}

/// Escapes a string's characters.
fn esc_exec(s: &str) -> (r: String)
    ensures
        r@ == esc(s@),
{
    let n = s.unicode_len();
    let mut out = String::new();
    proof {
        assert(esc(s@.take(0)) =~= Seq::<char>::empty());
    }
    let mut i: usize = 0;
    while i < n
        invariant
            n == s@.len(),
            i <= n,
            out@ == esc(s@.take(i as int)),
        decreases n - i,
    {
        let c = s.get_char(i);
        if c == '"' || c == '\\' {
            strutil::push_char(&mut out, '\\');
            strutil::push_char(&mut out, c);
        } else {
            strutil::push_char(&mut out, c);
        }
        proof {
            lemma_esc_take_step(s@, i as int);
            assert(out@ =~= esc(s@.take(i + 1)));
        }
        i = i + 1;
    }
    proof {
        assert(s@.take(n as int) =~= s@);
    }
    out
}

/// Writes a quoted, escaped string onto `out`.
fn write_str(out: &mut String, s: &str)
    ensures
        final(out)@ == old(out)@ + enc_str(s@),
{
    strutil::push_char(out, '"');
    let e = esc_exec(s);
    out.append(e.as_str());
    strutil::push_char(out, '"');
    proof {
        assert(final(out)@ =~= old(out)@ + enc_str(s@));
    }
}

/// Writes a quoted string or `null` onto `out`.
fn write_opt_str(out: &mut String, o: &Option<String>)
    ensures
        final(out)@ == old(out)@ + enc_opt_str(o.deep_view()),
{
    match o {
        Some(s) => {
            write_str(out, s.as_str());
        },
        None => {
            out.append("null");
        },
    }
}

/// Writes `true` or `false` onto `out`.
fn write_bool(out: &mut String, b: bool)
    ensures
        final(out)@ == old(out)@ + enc_bool(b),
{
    if b {
        out.append("true");
    } else {
        out.append("false");
    }
}

/// Writes one tab template onto `out`.
fn write_tab(out: &mut String, t: &Tab)
    ensures
        final(out)@ == old(out)@ + enc_tab(t@),
{
    reveal(enc_tab);
    out.append("{\"name\":");
    write_str(out, t.name.as_str());
    out.append(",\"command\":");
    write_opt_str(out, &t.command);
    out.append(",\"working_dir\":");
    write_opt_str(out, &t.working_dir);
    out.append("}");
    proof {
        assert(final(out)@ =~= old(out)@ + enc_tab(t@));
    }
}

/// Unrolling `enc_tab_items` one tab at a time, front to back.
proof fn lemma_enc_tab_items_take_step(tabs: Seq<TabModel>, i: int)
    requires
        0 <= i < tabs.len(),
    ensures
        enc_tab_items(tabs.take(i + 1)) == enc_tab_items(tabs.take(i)) + (if i == 0 {
            enc_tab(tabs[0])
        } else {
            seq![','] + enc_tab(tabs[i])
        }),
    decreases i,
{
    let a = tabs.take(i + 1);
    if i == 0 {
        assert(a =~= seq![tabs[0]]);
        assert(a.len() == 1);
        assert(a[0] == tabs[0]);
        assert(enc_tab_items(tabs.take(0)) =~= Seq::<char>::empty());
        assert(enc_tab_items(a) =~= enc_tab_items(tabs.take(0)) + enc_tab(tabs[0]));
    } else {
        assert(a.len() >= 2);
        assert(a.drop_first() =~= tabs.drop_first().take(i));
        assert(tabs.take(i).drop_first() =~= tabs.drop_first().take(i - 1));
        lemma_enc_tab_items_take_step(tabs.drop_first(), i - 1);
        assert(tabs.drop_first()[i - 1] == tabs[i]);
        assert(a[0] == tabs[0]);
        assert(tabs.take(i)[0] == tabs[0]);
        if i == 1 {
            assert(tabs.take(1).len() == 1);
            assert(enc_tab_items(tabs.take(1)) == enc_tab(tabs[0]));
            assert(tabs.drop_first().take(1) =~= seq![tabs[1]]);
            assert(enc_tab_items(a) == enc_tab(tabs[0]) + seq![','] + enc_tab_items(
                seq![tabs[1]],
            ));
            assert(enc_tab_items(seq![tabs[1]]) == enc_tab(tabs[1]));
            assert(enc_tab_items(a) =~= enc_tab_items(tabs.take(1)) + (seq![','] + enc_tab(
                tabs[1],
            )));
        } else {
            assert(tabs.take(i).len() >= 2);
            assert(enc_tab_items(tabs.take(i)) == enc_tab(tabs[0]) + seq![','] + enc_tab_items(
                tabs.drop_first().take(i - 1),
            ));
            assert(enc_tab_items(a) == enc_tab(tabs[0]) + seq![','] + enc_tab_items(
                tabs.drop_first().take(i),
            ));
            assert(enc_tab_items(a) =~= enc_tab_items(tabs.take(i)) + (seq![','] + enc_tab(
                tabs[i],
            )));
        }
    }
}

/// Writes a dimension's tabs, comma-separated, onto `out`.
fn write_tab_items(out: &mut String, tabs: &Vec<Tab>)
    ensures
        final(out)@ == old(out)@ + enc_tab_items(tabs.deep_view()),
{
    let ghost ts = tabs.deep_view();
    proof {
        assert(enc_tab_items(ts.take(0)) =~= Seq::<char>::empty());
        assert(out@ =~= old(out)@ + enc_tab_items(ts.take(0)));
    }
    let mut i: usize = 0;
    while i < tabs.len()
        invariant
            ts == tabs.deep_view(),
            i <= ts.len(),
            out@ == old(out)@ + enc_tab_items(ts.take(i as int)),
        decreases ts.len() - i,
    {
        if i > 0 {
            strutil::push_char(out, ',');
        }
        write_tab(out, &tabs[i]);
        proof {
            lemma_enc_tab_items_take_step(ts, i as int);
            assert(out@ =~= old(out)@ + enc_tab_items(ts.take(i + 1)));
        }
        i = i + 1;
    }
    proof {
        assert(ts.take(ts.len() as int) =~= ts);
    }
}

/// Writes one dimension onto `out`.
fn write_dim(out: &mut String, d: &Dimension)
    ensures
        final(out)@ == old(out)@ + enc_dim(d@),
{
    reveal(enc_dim);
    out.append("{\"name\":");
    write_str(out, d.name.as_str());
    out.append(",\"tabs\":[");
    write_tab_items(out, &d.tabs);
    out.append("],\"base_dir\":");
    write_opt_str(out, &d.base_dir);
    out.append(",\"collapsed\":");
    write_bool(out, d.collapsed);
    out.append("}");
    proof {
        assert(final(out)@ =~= old(out)@ + enc_dim(d@));
    }
}

/// Unrolling `enc_dim_items` one dimension at a time, front to back.
proof fn lemma_enc_dim_items_take_step(dims: Seq<DimensionModel>, i: int)
    requires
        0 <= i < dims.len(),
    ensures
        enc_dim_items(dims.take(i + 1)) == enc_dim_items(dims.take(i)) + (if i == 0 {
            enc_dim(dims[0])
        } else {
            seq![','] + enc_dim(dims[i])
        }),
    decreases i,
{
    let a = dims.take(i + 1);
    if i == 0 {
        assert(a =~= seq![dims[0]]);
        assert(a.len() == 1);
        assert(a[0] == dims[0]);
        assert(enc_dim_items(dims.take(0)) =~= Seq::<char>::empty());
        assert(enc_dim_items(a) =~= enc_dim_items(dims.take(0)) + enc_dim(dims[0]));
    } else {
        assert(a.len() >= 2);
        assert(a.drop_first() =~= dims.drop_first().take(i));
        assert(dims.take(i).drop_first() =~= dims.drop_first().take(i - 1));
        lemma_enc_dim_items_take_step(dims.drop_first(), i - 1);
        assert(dims.drop_first()[i - 1] == dims[i]);
        assert(a[0] == dims[0]);
        assert(dims.take(i)[0] == dims[0]);
        if i == 1 {
            assert(dims.take(1).len() == 1);
            assert(enc_dim_items(dims.take(1)) == enc_dim(dims[0]));
            assert(dims.drop_first().take(1) =~= seq![dims[1]]);
            assert(enc_dim_items(a) == enc_dim(dims[0]) + seq![','] + enc_dim_items(
                seq![dims[1]],
            ));
            assert(enc_dim_items(seq![dims[1]]) == enc_dim(dims[1]));
            assert(enc_dim_items(a) =~= enc_dim_items(dims.take(1)) + (seq![','] + enc_dim(
                dims[1],
            )));
        } else {
            assert(dims.take(i).len() >= 2);
            assert(enc_dim_items(dims.take(i)) == enc_dim(dims[0]) + seq![','] + enc_dim_items(
                dims.drop_first().take(i - 1),
            ));
            assert(enc_dim_items(a) == enc_dim(dims[0]) + seq![','] + enc_dim_items(
                dims.drop_first().take(i),
            ));
            assert(enc_dim_items(a) =~= enc_dim_items(dims.take(i)) + (seq![','] + enc_dim(
                dims[i],
            )));
        }
    }
}

impl DimensionConfig {
    /// The persisted text of this document.
    pub fn encode(&self) -> (r: String)
        ensures
            r@ == enc_config(self@),
    {
        let mut out: String = String::new();
        out.append("{\"dimensions\":[");
        let ghost ds = self@.dimensions;
        proof {
            assert(enc_dim_items(ds.take(0)) =~= Seq::<char>::empty());
            assert(out@ =~= "{\"dimensions\":["@ + enc_dim_items(ds.take(0)));
        }
        let mut i: usize = 0;
        while i < self.dimensions.len()
            invariant
                ds == self@.dimensions,
                i <= ds.len(),
                out@ == "{\"dimensions\":["@ + enc_dim_items(ds.take(i as int)),
            decreases ds.len() - i,
        {
            if i > 0 {
                strutil::push_char(&mut out, ',');
            }
            write_dim(&mut out, &self.dimensions[i]);
            proof {
                lemma_enc_dim_items_take_step(ds, i as int);
                assert(out@ =~= "{\"dimensions\":["@ + enc_dim_items(ds.take(i + 1)));
            }
            i = i + 1;
        }
        proof {
            assert(ds.take(ds.len() as int) =~= ds);
        }
        out.append("],\"active_dimension\":");
        write_opt_str(&mut out, &self.active_dimension);
        out.append("}");
        proof {
            assert(out@ =~= enc_config(self@));
        }
        out
    }

    /// Whether every dimension name in the document is unique.
    pub fn check_unique_names(&self) -> (b: bool)
        ensures
            b == crate::dimension::config_wf(self@),
    {
        let n = self.dimensions.len();
        let mut i: usize = 0;
        while i < n
            invariant
                n == self@.dimensions.len(),
                i <= n,
                forall|a: int, b: int|
                    0 <= a < b < self@.dimensions.len() && a < i ==> self@.dimensions[a].name
                        != self@.dimensions[b].name,
            decreases n - i,
        {
            let mut j: usize = i + 1;
            while j < n
                invariant
                    n == self@.dimensions.len(),
                    i < j <= n || (i + 1 == j && j > n),
                    i < n,
                    forall|b: int|
                        i < b < j ==> self@.dimensions[i as int].name != self@.dimensions[b].name,
                decreases n - j,
            {
                if self.dimensions[i].name == self.dimensions[j].name {
                    proof {
                        assert(self@.dimensions[i as int].name == self@.dimensions[j as int].name);
                        assert(!crate::dimension::config_wf(self@));
                    }
                    return false;
                }
                j = j + 1;
            }
            i = i + 1;
        }
        true
    }
}

// -------------------------------------------------------- parser, executable

/// Consumes an exact literal.
fn p_lit(s: &str, i: usize, lit: &str) -> (r: Option<usize>)
    ensures
        r is Some <==> parse_lit(s@, i as int, lit@) is Some,
        r matches Some(j) ==> parse_lit(s@, i as int, lit@) == Some(j as int) && i <= j
            <= s@.len(),
{
    let n = s.unicode_len();
    let m = lit.unicode_len();
    if i > n || m > n - i {
        return None;
    }
    let mut k: usize = 0;
    while k < m
        invariant
            n == s@.len(),
            m == lit@.len(),
            i + m <= n,
            k <= m,
            forall|t: int| 0 <= t < k ==> s@[i + t] == lit@[t],
        decreases m - k,
    {
        if s.get_char(i + k) != lit.get_char(k) {
            proof {
                assert(s@.subrange(i as int, i as int + m as int)[k as int] != lit@[k as int]);
                assert(s@.subrange(i as int, i as int + m as int) != lit@);
            }
            return None;
        }
        k = k + 1;
    }
    proof {
        assert(s@.subrange(i as int, i as int + m as int) =~= lit@);
    }
    Some(i + m)
}

/// Consumes a string's characters up to and including its closing quote.
fn p_string_body(s: &str, i: usize) -> (r: Option<(String, usize)>)
    ensures
        r is None ==> parse_string_body(s@, i as int) is None,
        r matches Some(p) ==> parse_string_body(s@, i as int) == Some((p.0@, p.1 as int)) && i
            < p.1 <= s@.len(),
    decreases s@.len() - i,
{
    let n = s.unicode_len();
    if i >= n {
        return None;
    }
    let c = s.get_char(i);
    if c == '"' {
        let empty = String::new();
        proof {
            assert(empty@ =~= Seq::<char>::empty());
        }
        Some((empty, i + 1))
    } else if c == '\\' {
        if i + 1 < n {
            let taken = s.get_char(i + 1);
            match p_string_body(s, i + 2) {
                Some((t, j)) => {
                    let mut out = strutil::char_to_string(taken);
                    out.append(t.as_str());
                    proof {
                        assert(out@ =~= seq![s@[i as int + 1]] + t@);
                    }
                    Some((out, j))
                },
                None => None,
            }
        } else {
            None
        }
    } else {
        match p_string_body(s, i + 1) {
            Some((t, j)) => {
                let mut out = strutil::char_to_string(c);
                out.append(t.as_str());
                proof {
                    assert(out@ =~= seq![s@[i as int]] + t@);
                }
                Some((out, j))
            },
            None => None,
        }
    }
}

/// Consumes a quoted string.
fn p_string(s: &str, i: usize) -> (r: Option<(String, usize)>)
    ensures
        r is None ==> parse_string(s@, i as int) is None,
        r matches Some(p) ==> parse_string(s@, i as int) == Some((p.0@, p.1 as int)) && i < p.1
            <= s@.len(),
{
    let n = s.unicode_len();
    if i < n && s.get_char(i) == '"' {
        p_string_body(s, i + 1)
    } else {
        None
    }
}

/// Consumes a quoted string or `null`.
fn p_opt_string(s: &str, i: usize) -> (r: Option<(Option<String>, usize)>)
    ensures
        r is None ==> parse_opt_string(s@, i as int) is None,
        r matches Some(p) ==> parse_opt_string(s@, i as int) == Some(
            (p.0.deep_view(), p.1 as int),
        ) && i <= p.1 <= s@.len(),
{
    match p_lit(s, i, "null") {
        Some(j) => Some((None, j)),
        None => match p_string(s, i) {
            Some((t, j)) => Some((Some(t), j)),
            None => None,
        },
    }
}

/// Consumes `true` or `false`.
fn p_bool(s: &str, i: usize) -> (r: Option<(bool, usize)>)
    ensures
        r is None ==> parse_bool(s@, i as int) is None,
        r matches Some(p) ==> parse_bool(s@, i as int) == Some((p.0, p.1 as int)) && i <= p.1
            <= s@.len(),
{
    match p_lit(s, i, "true") {
        Some(j) => Some((true, j)),
        None => match p_lit(s, i, "false") {
            Some(j) => Some((false, j)),
            None => None,
        },
    }
}

/// Consumes one tab template.
fn p_tab(s: &str, i: usize) -> (r: Option<(Tab, usize)>)
    ensures
        r is None ==> parse_tab(s@, i as int) is None,
        r matches Some(p) ==> parse_tab(s@, i as int) == Some((p.0@, p.1 as int)) && i < p.1
            <= s@.len(),
{
    proof {
        reveal(parse_tab);
    }
    let i1 = match p_lit(s, i, "{\"name\":") {
        Some(j) => j,
        None => {
            return None;
        },
    };
    let (nm, i2) = match p_string(s, i1) {
        Some(p) => p,
        None => {
            return None;
        },
    };
    let i3 = match p_lit(s, i2, ",\"command\":") {
        Some(j) => j,
        None => {
            return None;
        },
    };
    let (cmd, i4) = match p_opt_string(s, i3) {
        Some(p) => p,
        None => {
            return None;
        },
    };
    let i5 = match p_lit(s, i4, ",\"working_dir\":") {
        Some(j) => j,
        None => {
            return None;
        },
    };
    let (wd, i6) = match p_opt_string(s, i5) {
        Some(p) => p,
        None => {
            return None;
        },
    };
    let i7 = match p_lit(s, i6, "}") {
        Some(j) => j,
        None => {
            return None;
        },
    };
    Some((Tab { name: nm, command: cmd, working_dir: wd }, i7))
}

/// Consumes tab templates up to and including the closing bracket.
fn p_tab_items(s: &str, i: usize) -> (r: Option<(Vec<Tab>, usize)>)
    ensures
        r is None ==> parse_tab_items(s@, i as int) is None,
        r matches Some(p) ==> parse_tab_items(s@, i as int) == Some(
            (p.0.deep_view(), p.1 as int),
        ) && i < p.1 <= s@.len(),
    decreases s@.len() - i,
{
    let n = s.unicode_len();
    if i >= n {
        return None;
    }
    if s.get_char(i) == ']' {
        let v: Vec<Tab> = Vec::new();
        proof {
            assert(v.deep_view() =~= Seq::<TabModel>::empty());
        }
        return Some((v, i + 1));
    }
    let (t, j) = match p_tab(s, i) {
        Some(p) => p,
        None => {
            return None;
        },
    };
    proof {
        assert(advance(s@, i as int, j as int) == j as int);
    }
    if j < n && s.get_char(j) == ',' {
        match p_tab_items(s, j + 1) {
            Some((rest, k)) => {
                let ghost restm = rest.deep_view();
                let mut v = rest;
                v.insert(0, t);
                proof {
                    assert(v.deep_view() =~= seq![t@] + restm);
                }
                Some((v, k))
            },
            None => None,
        }
    } else if j < n && s.get_char(j) == ']' {
        let mut v: Vec<Tab> = Vec::new();
        v.push(t);
        proof {
            assert(v.deep_view() =~= seq![t@]);
        }
        Some((v, j + 1))
    } else {
        None
    }
}

/// Consumes one dimension; a missing `tabs` section means no tabs.
fn p_dimension(s: &str, i: usize) -> (r: Option<(Dimension, usize)>)
    ensures
        r is None ==> parse_dimension(s@, i as int) is None,
        r matches Some(p) ==> parse_dimension(s@, i as int) == Some((p.0@, p.1 as int)) && i
            < p.1 <= s@.len(),
{
    proof {
        reveal(parse_dimension);
    }
    let i1 = match p_lit(s, i, "{\"name\":") {
        Some(j) => j,
        None => {
            return None;
        },
    };
    let (nm, i2) = match p_string(s, i1) {
        Some(p) => p,
        None => {
            return None;
        },
    };
    let tabs: Vec<Tab>;
    let i4: usize;
    match p_lit(s, i2, ",\"tabs\":[") {
        Some(i3) => {
            match p_tab_items(s, i3) {
                Some((ts, k)) => {
                    tabs = ts;
                    i4 = k;
                },
                None => {
                    return None;
                },
            }
        },
        None => {
            tabs = Vec::new();
            i4 = i2;
            proof {
                assert(tabs.deep_view() =~= Seq::<TabModel>::empty());
            }
        },
    }
    let i5 = match p_lit(s, i4, ",\"base_dir\":") {
        Some(j) => j,
        None => {
            return None;
        },
    };
    let (bd, i6) = match p_opt_string(s, i5) {
        Some(p) => p,
        None => {
            return None;
        },
    };
    let i7 = match p_lit(s, i6, ",\"collapsed\":") {
        Some(j) => j,
        None => {
            return None;
        },
    };
    let (col, i8) = match p_bool(s, i7) {
        Some(p) => p,
        None => {
            return None;
        },
    };
    let i9 = match p_lit(s, i8, "}") {
        Some(j) => j,
        None => {
            return None;
        },
    };
    Some((Dimension { name: nm, tabs, base_dir: bd, collapsed: col }, i9))
}

/// Consumes dimensions up to and including the closing bracket.
fn p_dim_items(s: &str, i: usize) -> (r: Option<(Vec<Dimension>, usize)>)
    ensures
        r is None ==> parse_dim_items(s@, i as int) is None,
        r matches Some(p) ==> parse_dim_items(s@, i as int) == Some(
            (p.0.deep_view(), p.1 as int),
        ) && i < p.1 <= s@.len(),
    decreases s@.len() - i,
{
    let n = s.unicode_len();
    if i >= n {
        return None;
    }
    if s.get_char(i) == ']' {
        let v: Vec<Dimension> = Vec::new();
        proof {
            assert(v.deep_view() =~= Seq::<DimensionModel>::empty());
        }
        return Some((v, i + 1));
    }
    let (d, j) = match p_dimension(s, i) {
        Some(p) => p,
        None => {
            return None;
        },
    };
    proof {
        assert(advance(s@, i as int, j as int) == j as int);
    }
    if j < n && s.get_char(j) == ',' {
        match p_dim_items(s, j + 1) {
            Some((rest, k)) => {
                let ghost restm = rest.deep_view();
                let mut v = rest;
                v.insert(0, d);
                proof {
                    assert(v.deep_view() =~= seq![d@] + restm);
                }
                Some((v, k))
            },
            None => None,
        }
    } else if j < n && s.get_char(j) == ']' {
        let mut v: Vec<Dimension> = Vec::new();
        v.push(d);
        proof {
            assert(v.deep_view() =~= seq![d@]);
        }
        Some((v, j + 1))
    } else {
        None
    }
}

impl DimensionConfig {
    /// Parses a persisted document; anything but an exact document text
    /// is refused whole — there is no partial recovery.
    pub fn parse(s: &str) -> (r: Option<DimensionConfig>)
        ensures
            r is None ==> parse_config(s@) is None,
            r matches Some(c) ==> parse_config(s@) == Some(c@),
    {
        let i1 = match p_lit(s, 0, "{\"dimensions\":[") {
            Some(j) => j,
            None => {
                return None;
            },
        };
        let (dims, i2) = match p_dim_items(s, i1) {
            Some(p) => p,
            None => {
                return None;
            },
        };
        let i3 = match p_lit(s, i2, ",\"active_dimension\":") {
            Some(j) => j,
            None => {
                return None;
            },
        };
        let (act, i4) = match p_opt_string(s, i3) {
            Some(p) => p,
            None => {
                return None;
            },
        };
        let i5 = match p_lit(s, i4, "}") {
            Some(j) => j,
            None => {
                return None;
            },
        };
        if i5 == s.unicode_len() {
            Some(DimensionConfig { dimensions: dims, active_dimension: act })
        } else {
            None
        }
    }
}

} // verus!
