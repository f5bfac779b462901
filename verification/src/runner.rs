//! The execution configuration: the input filenames and runtime-visible
//! settings one build-and-execute cycle is given, its canonical JSON text,
//! and its construction from a loaded settings file.

use vstd::prelude::*;

use crate::fsmodel::views_of;
use crate::strutil::push_char;

verus! {

/// The escape of one character inside a JSON string literal.
pub open spec fn esc_char(c: char) -> Seq<char> {
    if c == '"' {
        seq!['\\', '"']
    } else if c == '\\' {
        seq!['\\', '\\']
    } else if c == '\n' {
        seq!['\\', 'n']
    } else if c == '\r' {
        seq!['\\', 'r']
    } else if c == '\t' {
        seq!['\\', 't']
    } else {
        seq![c]
    }
}

/// The body of a JSON string literal: each character escaped.
pub open spec fn json_escaped(s: Seq<char>) -> Seq<char>
    decreases s.len(),
{
    if s.len() == 0 {
        Seq::empty()
    } else {
        json_escaped(s.drop_last()) + esc_char(s.last())
    }
}

/// A JSON string literal.
pub open spec fn json_string(s: Seq<char>) -> Seq<char> {
    seq!['"'] + json_escaped(s) + seq!['"']
}

/// A JSON boolean.
pub open spec fn json_bool(b: bool) -> Seq<char> {
    if b {
        "true"@
    } else {
        "false"@
    }
}

/// A JSON string or null.
pub open spec fn json_opt_string(o: Option<Seq<char>>) -> Seq<char> {
    match o {
        Option::None => "null"@,
        Option::Some(s) => json_string(s),
    }
}

/// The comma-separated body of a JSON array of strings.
pub open spec fn json_string_list(l: Seq<Seq<char>>) -> Seq<char>
    decreases l.len(),
{
    if l.len() == 0 {
        Seq::empty()
    } else if l.len() == 1 {
        json_string(l[0])
    } else {
        json_string_list(l.drop_last()) + seq![','] + json_string(l.last())
    }
}

/// The view of an optional string.
pub open spec fn opt_view(o: Option<String>) -> Option<Seq<char>> {
    match o {
        Option::None => Option::None,
        Option::Some(s) => Option::Some(s@),
    }
}

/// The configuration of one build-and-execute cycle.
pub struct ExecProgramArgs {
    pub work_dir: Option<String>,
    pub k_filename_list: Vec<String>,
    pub output: Option<String>,
    pub disable_yaml_result: bool,
    pub debug: bool,
    pub sort_keys: bool,
}

/// The load options derived from a configuration and forwarded to the
/// parsing service.
pub struct LoadProgramOptions {
    pub work_dir: Option<String>,
}

/// The relevant content of a loaded settings file, as plain values; the
/// textual settings format itself is read by an outside collaborator.
pub struct SettingsFile {
    pub work_dir: Option<String>,
    pub input_files: Vec<String>,
    pub output: Option<String>,
    pub disable_yaml_result: bool,
    pub debug: bool,
    pub sort_keys: bool,
}

/// The canonical JSON text of a configuration: fields in declaration
/// order, no whitespace.
pub open spec fn args_json(a: ExecProgramArgs) -> Seq<char> {
    "{\"work_dir\":"@ + json_opt_string(opt_view(a.work_dir)) + ",\"k_filename_list\":["@
        + json_string_list(views_of(a.k_filename_list@)) + "],\"output\":"@ + json_opt_string(
        opt_view(a.output),
    ) + ",\"disable_yaml_result\":"@ + json_bool(a.disable_yaml_result) + ",\"debug\":"@
        + json_bool(a.debug) + ",\"sort_keys\":"@ + json_bool(a.sort_keys) + "}"@
}

/// The configuration a settings file denotes: field for field.
pub open spec fn spec_from_settings(s: SettingsFile) -> ExecProgramArgs {
    ExecProgramArgs {
        work_dir: s.work_dir,
        k_filename_list: s.input_files,
        output: s.output,
        disable_yaml_result: s.disable_yaml_result,
        debug: s.debug,
        sort_keys: s.sort_keys,
    }
}

/// Append the JSON escape of `s` to `out`.
fn append_json_escaped(out: &mut String, s: &str)
    ensures
        final(out)@ == old(out)@ + json_escaped(s@),
{
    let n = s.unicode_len();
    let mut i: usize = 0;
    while i < n
        invariant
            n == s@.len(),
            i <= n,
            out@ == old(out)@ + json_escaped(s@.subrange(0, i as int)),
        decreases n - i,
    {
        let ghost prefix = s@.subrange(0, i as int);
        let c = s.get_char(i);
        if c == '"' {
            push_char(out, '\\');
            push_char(out, '"');
        } else if c == '\\' {
            push_char(out, '\\');
            push_char(out, '\\');
        } else if c == '\n' {
            push_char(out, '\\');
            push_char(out, 'n');
        } else if c == '\r' {
            push_char(out, '\\');
            push_char(out, 'r');
        } else if c == '\t' {
            push_char(out, '\\');
            push_char(out, 't');
        } else {
            push_char(out, c);
        }
        proof {
            let next = s@.subrange(0, i + 1);
            assert(next.drop_last() =~= prefix);
            assert(next.last() == s@[i as int]);
            assert(out@ =~= old(out)@ + json_escaped(next));
        }
        i = i + 1;
    }
    proof {
        assert(s@.subrange(0, n as int) =~= s@);
    }
}

/// Append the JSON string literal of `s` to `out`.
fn append_json_string(out: &mut String, s: &str)
    ensures
        final(out)@ == old(out)@ + json_string(s@),
{
    push_char(out, '"');
    append_json_escaped(out, s);
    push_char(out, '"');
    proof {
        assert(old(out)@ + json_string(s@) =~= ((old(out)@ + seq!['"']) + json_escaped(s@)).push(
            '"',
        ));
    }
}

/// Append a JSON boolean to `out`.
fn append_json_bool(out: &mut String, b: bool)
    ensures
        final(out)@ == old(out)@ + json_bool(b),
{
    if b {
        out.append("true");
    } else {
        out.append("false");
    }
}

/// Append a JSON string or null to `out`.
fn append_json_opt_string(out: &mut String, o: &Option<String>)
    ensures
        final(out)@ == old(out)@ + json_opt_string(opt_view(*o)),
{
    match o {
        Option::None => {
            out.append("null");
        },
        Option::Some(s) => {
            append_json_string(out, s.as_str());
        },
    }
}

/// Append the comma-separated JSON body of a string list to `out`.
fn append_json_string_list(out: &mut String, l: &Vec<String>)
    ensures
        final(out)@ == old(out)@ + json_string_list(views_of(l@)),
{
    let n = l.len();
    let mut i: usize = 0;
    while i < n
        invariant
            n == l@.len(),
            i <= n,
            out@ == old(out)@ + json_string_list(views_of(l@).subrange(0, i as int)),
        decreases n - i,
    {
        let ghost prefix = views_of(l@).subrange(0, i as int);
        if i > 0 {
            push_char(out, ',');
        }
        append_json_string(out, l[i].as_str());
        proof {
            let next = views_of(l@).subrange(0, i + 1);
            assert(next.drop_last() =~= prefix);
            assert(next.last() == views_of(l@)[i as int]);
            assert(out@ =~= old(out)@ + json_string_list(next));
        }
        i = i + 1;
    }
    proof {
        assert(views_of(l@).subrange(0, n as int) =~= views_of(l@));
    }
}

/// Escaping a concatenation escapes each part.
proof fn lemma_json_escaped_append(x: Seq<char>, y: Seq<char>)
    ensures
        json_escaped(x + y) == json_escaped(x) + json_escaped(y),
    decreases y.len(),
{
    if y.len() == 0 {
        assert(x + y =~= x);
        assert(json_escaped(x) + json_escaped(y) =~= json_escaped(x));
    } else {
        lemma_json_escaped_append(x, y.drop_last());
        assert((x + y).drop_last() =~= x + y.drop_last());
        assert((x + y).last() == y.last());
        assert(json_escaped(x + y) =~= json_escaped(x) + json_escaped(y));
    }
}

/// The escape of a sequence splits at any position into the escape of the
/// prefix, the escape of the character there, and the escape of the rest.
proof fn lemma_escaped_split(v: Seq<char>, p: int)
    requires
        0 <= p < v.len(),
    ensures
        json_escaped(v.subrange(0, p + 1)) == json_escaped(v.subrange(0, p)) + esc_char(v[p]),
        json_escaped(v) == json_escaped(v.subrange(0, p)) + esc_char(v[p]) + json_escaped(
            v.subrange(p + 1, v.len() as int),
        ),
{
    assert(v.subrange(0, p + 1).drop_last() =~= v.subrange(0, p));
    assert(v.subrange(0, p + 1).last() == v[p]);
    assert(v =~= v.subrange(0, p + 1) + v.subrange(p + 1, v.len() as int));
    lemma_json_escaped_append(v.subrange(0, p + 1), v.subrange(p + 1, v.len() as int));
    assert(json_escaped(v) =~= json_escaped(v.subrange(0, p)) + esc_char(v[p]) + json_escaped(
        v.subrange(p + 1, v.len() as int),
    ));
}

/// A sequence standing between two others can be read back out of the
/// concatenation.
proof fn lemma_mid(x: Seq<char>, y: Seq<char>, z: Seq<char>, t: Seq<char>)
    requires
        t == x + y + z,
    ensures
        t.subrange(x.len() as int, x.len() + y.len() as int) == y,
{
    assert(t.subrange(x.len() as int, x.len() + y.len() as int) =~= y);
}

/// Advance past `lit` at position `i` of `s`: succeeds exactly when `lit`
/// stands there.
fn expect_lit(s: &str, n: usize, i: usize, lit: &str) -> (r: Option<usize>)
    requires
        n == s@.len(),
        i <= n,
    ensures
        r matches Some(j) ==> j == i + lit@.len() && j <= n && s@.subrange(i as int, j as int)
            == lit@,
        i + lit@.len() <= n && s@.subrange(i as int, i + lit@.len()) == lit@ ==> r is Some,
{
    let m = lit.unicode_len();
    if m > n - i {
        return Option::None;
    }
    let mut k: usize = 0;
    while k < m
        invariant
            n == s@.len(),
            m == lit@.len(),
            i + m <= n,
            k <= m,
            forall|t: int| 0 <= t < k ==> s@[i + t] == lit@[t],
        decreases m - k,
    {
        if s.get_char(i + k) != lit.get_char(k) {
            proof {
                assert(s@.subrange(i as int, i + lit@.len())[k as int] == s@[i + k]);
            }
            return Option::None;
        }
        k = k + 1;
    }
    proof {
        assert(s@.subrange(i as int, i + lit@.len()) =~= lit@);
    }
    Option::Some(i + m)
}

/// The text of `s` from `i` onward begins with the JSON string literal
/// of `v`.
pub open spec fn string_lit_at(s: Seq<char>, i: int, v: Seq<char>) -> bool {
    0 <= i && i + json_string(v).len() <= s.len() && s.subrange(i, i + json_string(v).len())
        == json_string(v)
}

/// Read a JSON string literal starting at position `i` of `s`, undoing the
/// escapes the canonical form uses; anything else is rejected. Succeeds on
/// every canonical string literal, and whatever it accepts is exactly such
/// a literal.
fn parse_string_at(s: &str, n: usize, i: usize) -> (r: Option<(String, usize)>)
    requires
        n == s@.len(),
        i <= n,
    ensures
        r matches Some(p) ==> i < p.1 <= n && s@.subrange(i as int, p.1 as int) == json_string(
            p.0@,
        ),
        forall|v: Seq<char>| #[trigger] string_lit_at(s@, i as int, v) ==> (r matches Some(p2)
            && p2.0@ == v && p2.1 == i + json_string(v).len()),
{
    if i >= n || s.get_char(i) != '"' {
        proof {
            assert forall|v: Seq<char>| #[trigger] string_lit_at(s@, i as int, v) implies false by {
                assert(s@.subrange(i as int, i + json_string(v).len())[0] == s@[i as int]);
                assert(json_string(v)[0] == '"');
            }
        }
        return Option::None;
    }
    let mut out = String::new();
    let mut k: usize = i + 1;
    proof {
        assert(json_escaped(out@) =~= s@.subrange(i + 1, k as int));
        assert forall|v: Seq<char>| #[trigger] string_lit_at(s@, i as int, v) implies out@
            == v.subrange(0, out@.len() as int) && out@.len() <= v.len() && k == i + 1
            + json_escaped(out@).len() by {
            assert(out@ =~= v.subrange(0, 0));
        }
    }
    while k < n
        invariant
            n == s@.len(),
            i < k <= n,
            s@[i as int] == '"',
            json_escaped(out@) == s@.subrange(i + 1, k as int),
            forall|v: Seq<char>| #[trigger] string_lit_at(s@, i as int, v) ==> out@ == v.subrange(
                0,
                out@.len() as int,
            ) && out@.len() <= v.len() && k == i + 1 + json_escaped(out@).len(),
        decreases n - k,
    {
        let ghost out_pre = out@;
        let c = s.get_char(k);
        proof {
            assert forall|v: Seq<char>|
                #[trigger] string_lit_at(s@, i as int, v) && out_pre.len() < v.len() implies s@[
                k as int
            ] == esc_char(v[out_pre.len() as int])[0] && (esc_char(
                v[out_pre.len() as int],
            ).len() == 2 ==> k + 1 < i + json_string(v).len() && s@[k + 1] == esc_char(
                v[out_pre.len() as int],
            )[1]) by {
                let p = out_pre.len() as int;
                lemma_escaped_split(v, p);
                assert forall|t: int| 0 <= t < json_string(v).len() implies s@[i + t]
                    == json_string(v)[t] by {
                    assert(s@.subrange(i as int, i + json_string(v).len())[t] == s@[i + t]);
                }
                assert(json_string(v)[1 + json_escaped(out_pre).len() as int] == json_escaped(v)[
                    json_escaped(out_pre).len() as int
                ]);
                if esc_char(v[p]).len() == 2 {
                    assert(json_string(v)[2 + json_escaped(out_pre).len() as int] == json_escaped(v)[
                        json_escaped(out_pre).len() + 1 as int
                    ]);
                }
            }
            assert forall|v: Seq<char>|
                #[trigger] string_lit_at(s@, i as int, v) && out_pre.len() == v.len() implies s@[
                k as int
            ] == '"' by {
                assert(out_pre =~= v);
                assert(s@.subrange(i as int, i + json_string(v).len())[
                    1 + json_escaped(v).len() as int
                ] == s@[i + 1 + json_escaped(v).len()]);
                assert(json_string(v)[1 + json_escaped(v).len() as int] == '"');
            }
        }
        if c == '"' {
            proof {
                assert(s@.subrange(i as int, k + 1) =~= seq!['"'] + json_escaped(out@)
                    + seq!['"']);
                assert forall|v: Seq<char>| #[trigger] string_lit_at(s@, i as int, v) implies out@
                    == v && k + 1 == i + json_string(v).len() by {
                    if out@.len() < v.len() {
                        assert(esc_char(v[out@.len() as int])[0] != '"');
                        assert(false);
                    }
                    assert(out@ =~= v);
                }
            }
            return Option::Some((out, k + 1));
        } else if c == '\\' {
            if k + 1 >= n {
                proof {
                    assert forall|v: Seq<char>|
                        #[trigger] string_lit_at(s@, i as int, v) implies false by {
                        if out_pre.len() < v.len() {
                            let p = out_pre.len() as int;
                            if esc_char(v[p]).len() == 2 {
                                assert(k + 1 < i + json_string(v).len());
                            } else {
                                assert(esc_char(v[p]) =~= seq![v[p]]);
                                assert(v[p] != '\\');
                            }
                        }
                    }
                }
                return Option::None;
            }
            let d = s.get_char(k + 1);
            let x: char = if d == '"' {
                '"'
            } else if d == '\\' {
                '\\'
            } else if d == 'n' {
                '\n'
            } else if d == 'r' {
                '\r'
            } else if d == 't' {
                '\t'
            } else {
                proof {
                    assert forall|v: Seq<char>|
                        #[trigger] string_lit_at(s@, i as int, v) implies false by {
                        if out_pre.len() < v.len() {
                            let p = out_pre.len() as int;
                            if esc_char(v[p]).len() == 2 {
                                assert(s@[k + 1] == esc_char(v[p])[1]);
                            } else {
                                assert(esc_char(v[p]) =~= seq![v[p]]);
                            }
                        }
                    }
                }
                return Option::None;
            };
            push_char(&mut out, x);
            k = k + 2;
            proof {
                assert(out@.drop_last() =~= out_pre);
                assert(out@.last() == x);
                assert(json_escaped(out@) =~= json_escaped(out_pre) + esc_char(x));
                assert(s@.subrange(i + 1, k as int) =~= s@.subrange(i + 1, k - 2).push(
                    s@[k - 2],
                ).push(s@[k - 1]));
                assert(json_escaped(out@) =~= s@.subrange(i + 1, k as int));
                assert forall|v: Seq<char>| #[trigger] string_lit_at(s@, i as int, v) implies out@
                    == v.subrange(0, out@.len() as int) && out@.len() <= v.len() && k == i + 1
                    + json_escaped(out@).len() by {
                    let p = out_pre.len() as int;
                    assert(p < v.len());
                    assert(esc_char(v[p]).len() == 2);
                    assert(esc_char(v[p])[1] == d);
                    assert(v[p] == x);
                    assert(out@ =~= v.subrange(0, p + 1));
                    lemma_escaped_split(v, p);
                }
            }
        } else if c == '\n' || c == '\r' || c == '\t' {
            proof {
                assert forall|v: Seq<char>|
                    #[trigger] string_lit_at(s@, i as int, v) implies false by {
                    if out_pre.len() < v.len() {
                        let p = out_pre.len() as int;
                        if esc_char(v[p]).len() == 2 {
                            assert(esc_char(v[p])[0] == '\\');
                        } else {
                            assert(esc_char(v[p]) =~= seq![v[p]]);
                        }
                    }
                }
            }
            return Option::None;
        } else {
            push_char(&mut out, c);
            k = k + 1;
            proof {
                assert(esc_char(c) =~= seq![c]);
                assert(out@.drop_last() =~= out_pre);
                assert(out@.last() == c);
                assert(json_escaped(out@) =~= json_escaped(out_pre) + esc_char(c));
                assert(s@.subrange(i + 1, k as int) =~= s@.subrange(i + 1, k - 1).push(
                    s@[k - 1],
                ));
                assert(json_escaped(out@) =~= s@.subrange(i + 1, k as int));
                assert forall|v: Seq<char>| #[trigger] string_lit_at(s@, i as int, v) implies out@
                    == v.subrange(0, out@.len() as int) && out@.len() <= v.len() && k == i + 1
                    + json_escaped(out@).len() by {
                    let p = out_pre.len() as int;
                    assert(p < v.len());
                    if esc_char(v[p]).len() == 2 {
                        assert(esc_char(v[p])[0] == '\\');
                        assert(false);
                    }
                    assert(esc_char(v[p]) =~= seq![v[p]]);
                    assert(v[p] == c);
                    assert(out@ =~= v.subrange(0, p + 1));
                    lemma_escaped_split(v, p);
                }
            }
        }
    }
    proof {
        assert forall|v: Seq<char>| #[trigger] string_lit_at(s@, i as int, v) implies false by {
            if out@.len() < v.len() {
                lemma_escaped_split(v, out@.len() as int);
            } else {
                assert(out@ =~= v);
            }
            assert(k <= i + 1 + json_escaped(v).len());
        }
    }
    Option::None
}

/// Read `null` or a JSON string literal at position `i` of `s`. Succeeds
/// exactly on the canonical forms, and pins what it read.
fn parse_opt_string_at(s: &str, n: usize, i: usize) -> (r: Option<(Option<String>, usize)>)
    requires
        n == s@.len(),
        i <= n,
    ensures
        r matches Some(p) ==> i <= p.1 <= n && s@.subrange(i as int, p.1 as int)
            == json_opt_string(opt_view(p.0)) && p.1 == i + json_opt_string(
            opt_view(p.0),
        ).len(),
        (i + json_opt_string(Option::None).len() <= n && s@.subrange(
            i as int,
            i + json_opt_string(Option::None).len() as int,
        ) == json_opt_string(Option::None)) ==> (r matches Some(p2) && p2.0 is None && p2.1 == i
            + json_opt_string(Option::None).len()),
        forall|v: Seq<char>| #[trigger] string_lit_at(s@, i as int, v) ==> (r matches Some(p3)
            && (p3.0 matches Some(w) && w@ == v) && p3.1 == i + json_string(v).len()),
{
    match expect_lit(s, n, i, "null") {
        Option::Some(j) => {
            proof {
                reveal_strlit("null");
                assert forall|v: Seq<char>|
                    #[trigger] string_lit_at(s@, i as int, v) implies false by {
                    assert(s@.subrange(i as int, j as int)[0] == s@[i as int]);
                    assert(s@.subrange(i as int, i + json_string(v).len())[0] == s@[i as int]);
                    assert(json_string(v)[0] == '"');
                }
            }
            Option::Some((Option::None, j))
        },
        Option::None => {
            match parse_string_at(s, n, i) {
                Option::Some(p) => {
                    proof {
                        assert(s@.subrange(i as int, p.1 as int).len() == p.1 - i);
                    }
                    Option::Some((Option::Some(p.0), p.1))
                },
                Option::None => Option::None,
            }
        },
    }
}

/// Read `true` or `false` at position `i` of `s`. Succeeds exactly on
/// those, and pins what it read.
fn parse_bool_at(s: &str, n: usize, i: usize) -> (r: Option<(bool, usize)>)
    requires
        n == s@.len(),
        i <= n,
    ensures
        r matches Some(p) ==> i <= p.1 <= n && s@.subrange(i as int, p.1 as int) == json_bool(
            p.0,
        ) && p.1 == i + json_bool(p.0).len(),
        (i + json_bool(true).len() <= n && s@.subrange(
            i as int,
            i + json_bool(true).len() as int,
        ) == json_bool(true)) ==> (r matches Some(p2) && p2.0 == true && p2.1 == i + json_bool(
            true,
        ).len()),
        (i + json_bool(false).len() <= n && s@.subrange(
            i as int,
            i + json_bool(false).len() as int,
        ) == json_bool(false)) ==> (r matches Some(p3) && p3.0 == false && p3.1 == i + json_bool(
            false,
        ).len()),
{
    match expect_lit(s, n, i, "true") {
        Option::Some(j) => {
            proof {
                reveal_strlit("true");
                reveal_strlit("false");
                if i + json_bool(false).len() <= n && s@.subrange(
                    i as int,
                    i + json_bool(false).len() as int,
                ) == json_bool(false) {
                    assert(s@.subrange(i as int, j as int)[0] == s@[i as int]);
                    assert(s@.subrange(i as int, i + json_bool(false).len() as int)[0] == s@[
                        i as int
                    ]);
                    assert(false);
                }
            }
            Option::Some((true, j))
        },
        Option::None => {
            match expect_lit(s, n, i, "false") {
                Option::Some(j) => {
                    proof {
                        reveal_strlit("true");
                        reveal_strlit("false");
                        if i + json_bool(true).len() <= n && s@.subrange(
                            i as int,
                            i + json_bool(true).len() as int,
                        ) == json_bool(true) {
                            assert(s@.subrange(i as int, j as int)[0] == s@[i as int]);
                            assert(s@.subrange(i as int, i + json_bool(true).len() as int)[0]
                                == s@[i as int]);
                            assert(false);
                        }
                    }
                    Option::Some((false, j))
                },
                Option::None => Option::None,
            }
        },
    }
}

/// A list body splits at any separator into the bodies of the two halves.
proof fn lemma_list_split(l: Seq<Seq<char>>, m: int)
    requires
        1 <= m < l.len(),
    ensures
        json_string_list(l) == json_string_list(l.subrange(0, m)) + seq![','] + json_string_list(
            l.subrange(m, l.len() as int),
        ),
    decreases l.len(),
{
    let r = l.subrange(m, l.len() as int);
    if m == l.len() - 1 {
        assert(l.subrange(0, m) =~= l.drop_last());
        assert(r.len() == 1);
        assert(r[0] == l.last());
        assert(json_string_list(l) =~= json_string_list(l.subrange(0, m)) + seq![',']
            + json_string_list(r));
    } else {
        lemma_list_split(l.drop_last(), m);
        assert(l.drop_last().subrange(0, m) =~= l.subrange(0, m));
        assert(l.drop_last().subrange(m, l.len() - 1) =~= l.subrange(m, l.len() - 1));
        assert(r.len() >= 2);
        assert(r.drop_last() =~= l.subrange(m, l.len() - 1));
        assert(r.last() == l.last());
        assert(json_string_list(l) =~= json_string_list(l.subrange(0, m)) + seq![',']
            + json_string_list(r));
    }
}

/// A nonempty list body begins with its first element's string literal.
proof fn lemma_list_front(l: Seq<Seq<char>>)
    requires
        l.len() >= 1,
    ensures
        l.len() == 1 ==> json_string_list(l) == json_string(l[0]),
        l.len() >= 2 ==> json_string_list(l) == json_string(l[0]) + seq![',']
            + json_string_list(l.subrange(1, l.len() as int)),
{
    if l.len() >= 2 {
        lemma_list_split(l, 1);
        assert(l.subrange(0, 1).len() == 1);
        assert(l.subrange(0, 1)[0] == l[0]);
        assert(json_string_list(l) =~= json_string(l[0]) + seq![','] + json_string_list(
            l.subrange(1, l.len() as int),
        ));
    }
}

/// The text of `s` from `i` onward begins with the comma-separated body of
/// the string list `l`, closed by a bracket.
pub open spec fn list_body_at(s: Seq<char>, i: int, l: Seq<Seq<char>>) -> bool {
    0 <= i && i + json_string_list(l).len() < s.len() && s.subrange(
        i,
        i + json_string_list(l).len(),
    ) == json_string_list(l) && s[i + json_string_list(l).len()] == ']'
}

/// Read the comma-separated body of a JSON array of strings at position
/// `i` of `s`, stopping before the closing bracket. Succeeds on every
/// bracket-closed canonical body, pinning the elements, and whatever it
/// accepts is exactly such a body.
fn parse_string_list_at(s: &str, n: usize, i: usize) -> (r: Option<(Vec<String>, usize)>)
    requires
        n == s@.len(),
        i <= n,
    ensures
        r matches Some(p) ==> i <= p.1 <= n && s@.subrange(i as int, p.1 as int)
            == json_string_list(views_of(p.0@)),
        forall|l: Seq<Seq<char>>| #[trigger] list_body_at(s@, i as int, l) ==> (r matches Some(
            p2,
        ) && views_of(p2.0@) == l && p2.1 == i + json_string_list(l).len()),
{
    let mut out: Vec<String> = Vec::new();
    if i >= n || s.get_char(i) != '"' {
        proof {
            assert(s@.subrange(i as int, i as int) =~= json_string_list(views_of(out@)));
            assert forall|l: Seq<Seq<char>>|
                #[trigger] list_body_at(s@, i as int, l) implies views_of(out@) == l && i == i
                + json_string_list(l).len() by {
                if l.len() >= 1 {
                    lemma_list_front(l);
                    assert(s@.subrange(i as int, i + json_string_list(l).len())[0] == s@[
                        i as int
                    ]);
                    assert(json_string_list(l)[0] == json_string(l[0])[0]);
                    assert(json_string(l[0])[0] == '"');
                    assert(false);
                }
                assert(views_of(out@) =~= l);
            }
        }
        return Option::Some((out, i));
    }
    let mut k: usize = i;
    loop
        invariant
            n == s@.len(),
            i <= k <= n,
            out@.len() == 0 ==> k == i,
            out@.len() >= 1 ==> s@.subrange(i as int, k as int) == json_string_list(
                views_of(out@),
            ) + seq![','],
            forall|l: Seq<Seq<char>>| #[trigger] list_body_at(s@, i as int, l) ==> out@.len()
                < l.len() && views_of(out@) == l.subrange(0, out@.len() as int) && k == i + (
            if out@.len() == 0 {
                0int
            } else {
                json_string_list(l.subrange(0, out@.len() as int)).len() + 1int
            }),
        decreases n - k,
    {
        proof {
            assert forall|l: Seq<Seq<char>>|
                #[trigger] list_body_at(s@, i as int, l) implies string_lit_at(
                s@,
                k as int,
                l[out@.len() as int],
            ) by {
                let m = out@.len() as int;
                let body = json_string_list(l);
                let rest = l.subrange(m, l.len() as int);
                assert forall|u: int| 0 <= u < body.len() implies s@[i + u] == body[u] by {
                    assert(s@.subrange(i as int, i + body.len())[u] == s@[i + u]);
                }
                if m == 0 {
                    assert(rest =~= l);
                } else {
                    lemma_list_split(l, m);
                }
                assert forall|t: int| 0 <= t < json_string_list(rest).len() implies s@[k + t]
                    == json_string_list(rest)[t] by {
                    assert(body[(k - i) + t] == json_string_list(rest)[t]);
                }
                lemma_list_front(rest);
                assert(rest[0] == l[m]);
                assert(json_string(l[m]).len() <= json_string_list(rest).len());
                assert(k - i + json_string_list(rest).len() == body.len());
                assert forall|t: int| 0 <= t < json_string(l[m]).len() implies s@[k + t]
                    == json_string(l[m])[t] by {
                    assert(s@[k + t] == json_string_list(rest)[t]);
                    if rest.len() >= 2 {
                        assert(json_string_list(rest)[t] == json_string(rest[0])[t]);
                    }
                }
                assert(s@.subrange(k as int, k + json_string(l[m]).len()) =~= json_string(
                    l[m],
                ));
            }
        }
        let ghost out_pre = out@;
        match parse_string_at(s, n, k) {
            Option::None => {
                return Option::None;
            },
            Option::Some(p) => {
                let ghost kp = k;
                let w = p.0;
                k = p.1;
                proof {
                    assert(views_of(out@.push(w)) =~= views_of(out_pre).push(w@));
                    if out_pre.len() >= 1 {
                        assert(json_string_list(views_of(out_pre).push(w@))
                            == json_string_list(views_of(out_pre)) + seq![','] + json_string(
                            w@,
                        )) by {
                            assert(views_of(out_pre).push(w@).drop_last() =~= views_of(
                                out_pre,
                            ));
                            assert(json_string_list(views_of(out_pre).push(w@))
                                =~= json_string_list(views_of(out_pre)) + seq![',']
                                + json_string(w@));
                        }
                    } else {
                        assert(json_string_list(views_of(out_pre).push(w@)) == json_string(w@))
                            by {
                            assert(views_of(out_pre).push(w@).len() == 1);
                            assert(views_of(out_pre).push(w@)[0] == w@);
                        }
                    }
                    assert(s@.subrange(i as int, k as int) =~= s@.subrange(i as int, kp as int)
                        + s@.subrange(kp as int, k as int));
                }
                out.push(w);
            },
        }
        proof {
            assert(s@.subrange(i as int, k as int) == json_string_list(views_of(out@)));
            assert forall|l: Seq<Seq<char>>|
                #[trigger] list_body_at(s@, i as int, l) implies out@.len() <= l.len()
                && views_of(out@) == l.subrange(0, out@.len() as int) && k == i
                + json_string_list(l.subrange(0, out@.len() as int)).len() by {
                let m = out_pre.len() as int;
                assert(views_of(out@) =~= views_of(out_pre).push(views_of(out@)[m]));
                assert(views_of(out@)[m] == l[m]);
                assert(views_of(out@) =~= l.subrange(0, m + 1));
                if m >= 1 {
                    lemma_list_split(l.subrange(0, m + 1), m);
                    assert(l.subrange(0, m + 1).subrange(0, m) =~= l.subrange(0, m));
                    assert(l.subrange(0, m + 1).subrange(m, m + 1) =~= l.subrange(m, m + 1));
                    assert(l.subrange(m, m + 1).len() == 1);
                    assert(l.subrange(m, m + 1)[0] == l[m]);
                }
            }
        }
        if k < n && s.get_char(k) == ',' {
            k = k + 1;
            proof {
                assert forall|l: Seq<Seq<char>>|
                    #[trigger] list_body_at(s@, i as int, l) implies out@.len() < l.len()
                    && k == i + json_string_list(l.subrange(0, out@.len() as int)).len()
                    + 1 by {
                    let m = out@.len() as int;
                    if m == l.len() {
                        assert(l.subrange(0, m) =~= l);
                        assert(s@[i + json_string_list(l).len()] == ']');
                        assert(false);
                    }
                }
            }
        } else {
            proof {
                assert forall|l: Seq<Seq<char>>|
                    #[trigger] list_body_at(s@, i as int, l) implies views_of(out@) == l && k
                    == i + json_string_list(l).len() by {
                    let m = out@.len() as int;
                    if m < l.len() {
                        lemma_list_split(l, m);
                        assert(k - i == json_string_list(l.subrange(0, m)).len());
                        assert(k - i < json_string_list(l).len());
                        assert(k < n);
                        assert(s@.subrange(i as int, i + json_string_list(l).len())[k - i]
                            == s@[i + (k - i)]);
                        assert(json_string_list(l)[k - i] == ',');
                        assert(s@[k as int] == ',');
                        assert(false);
                    }
                    assert(views_of(out@) =~= l);
                }
            }
            return Option::Some((out, k));
        }
    }
}

/// Offsets of the successive parts of a configuration's canonical text.
spec fn off_wd(a: ExecProgramArgs) -> int {
    "{\"work_dir\":"@.len() as int
}

spec fn off_l2(a: ExecProgramArgs) -> int {
    off_wd(a) + json_opt_string(opt_view(a.work_dir)).len()
}

spec fn off_list(a: ExecProgramArgs) -> int {
    off_l2(a) + ",\"k_filename_list\":["@.len()
}

spec fn off_l3(a: ExecProgramArgs) -> int {
    off_list(a) + json_string_list(views_of(a.k_filename_list@)).len()
}

spec fn off_out(a: ExecProgramArgs) -> int {
    off_l3(a) + "],\"output\":"@.len()
}

spec fn off_l4(a: ExecProgramArgs) -> int {
    off_out(a) + json_opt_string(opt_view(a.output)).len()
}

spec fn off_dy(a: ExecProgramArgs) -> int {
    off_l4(a) + ",\"disable_yaml_result\":"@.len()
}

spec fn off_l5(a: ExecProgramArgs) -> int {
    off_dy(a) + json_bool(a.disable_yaml_result).len()
}

spec fn off_db(a: ExecProgramArgs) -> int {
    off_l5(a) + ",\"debug\":"@.len()
}

spec fn off_l6(a: ExecProgramArgs) -> int {
    off_db(a) + json_bool(a.debug).len()
}

spec fn off_sk(a: ExecProgramArgs) -> int {
    off_l6(a) + ",\"sort_keys\":"@.len()
}

spec fn off_l7(a: ExecProgramArgs) -> int {
    off_sk(a) + json_bool(a.sort_keys).len()
}

/// Where the first parts of a configuration's canonical text stand.
#[verifier::rlimit(100)]
proof fn lemma_args_json_parts_a(a: ExecProgramArgs)
    ensures
        args_json(a).len() == off_l7(a) + 1,
        args_json(a).subrange(0, off_wd(a)) == "{\"work_dir\":"@,
        args_json(a).subrange(off_wd(a), off_l2(a)) == json_opt_string(opt_view(a.work_dir)),
        args_json(a).subrange(off_l2(a), off_list(a)) == ",\"k_filename_list\":["@,
        args_json(a).subrange(off_list(a), off_l3(a)) == json_string_list(
            views_of(a.k_filename_list@),
        ),
{
    let t = args_json(a);
    let l1 = "{\"work_dir\":"@;
    let c1 = json_opt_string(opt_view(a.work_dir));
    let l2 = ",\"k_filename_list\":["@;
    let c2 = json_string_list(views_of(a.k_filename_list@));
    let l3 = "],\"output\":"@;
    let c3 = json_opt_string(opt_view(a.output));
    let l4 = ",\"disable_yaml_result\":"@;
    let c4 = json_bool(a.disable_yaml_result);
    let l5 = ",\"debug\":"@;
    let c5 = json_bool(a.debug);
    let l6 = ",\"sort_keys\":"@;
    let c6 = json_bool(a.sort_keys);
    let l7 = "}"@;
    reveal_strlit("}");
    reveal_strlit("],\"output\":");
    assert(t.len() == off_l7(a) + 1);
    assert(t =~= Seq::<char>::empty() + l1 + t.subrange(off_wd(a), t.len() as int));
    lemma_mid(Seq::<char>::empty(), l1, t.subrange(off_wd(a), t.len() as int), t);
    assert(t.subrange(0, off_wd(a)) == l1) by {
        assert(t.subrange(0, off_wd(a)) =~= Seq::<char>::empty() + l1);
    }
    assert(t =~= l1 + c1 + t.subrange(off_l2(a), t.len() as int));
    lemma_mid(l1, c1, t.subrange(off_l2(a), t.len() as int), t);
    assert(t =~= (l1 + c1) + l2 + t.subrange(off_list(a), t.len() as int));
    lemma_mid(l1 + c1, l2, t.subrange(off_list(a), t.len() as int), t);
    assert(t =~= (l1 + c1 + l2) + c2 + t.subrange(off_l3(a), t.len() as int));
    lemma_mid(l1 + c1 + l2, c2, t.subrange(off_l3(a), t.len() as int), t);
}

/// Where the middle parts of a configuration's canonical text stand.
#[verifier::rlimit(100)]
proof fn lemma_args_json_parts_b(a: ExecProgramArgs)
    ensures
        args_json(a).subrange(off_l3(a), off_out(a)) == "],\"output\":"@,
        args_json(a)[off_l3(a)] == ']',
        args_json(a).subrange(off_out(a), off_l4(a)) == json_opt_string(opt_view(a.output)),
        args_json(a).subrange(off_l4(a), off_dy(a)) == ",\"disable_yaml_result\":"@,
{
    let t = args_json(a);
    let l1 = "{\"work_dir\":"@;
    let c1 = json_opt_string(opt_view(a.work_dir));
    let l2 = ",\"k_filename_list\":["@;
    let c2 = json_string_list(views_of(a.k_filename_list@));
    let l3 = "],\"output\":"@;
    let c3 = json_opt_string(opt_view(a.output));
    let l4 = ",\"disable_yaml_result\":"@;
    let c4 = json_bool(a.disable_yaml_result);
    let l5 = ",\"debug\":"@;
    let c5 = json_bool(a.debug);
    let l6 = ",\"sort_keys\":"@;
    let c6 = json_bool(a.sort_keys);
    let l7 = "}"@;
    reveal_strlit("}");
    reveal_strlit("],\"output\":");
    assert(t =~= (l1 + c1 + l2 + c2) + l3 + t.subrange(off_out(a), t.len() as int));
    lemma_mid(l1 + c1 + l2 + c2, l3, t.subrange(off_out(a), t.len() as int), t);
    assert(t =~= (l1 + c1 + l2 + c2 + l3) + c3 + t.subrange(off_l4(a), t.len() as int));
    lemma_mid(l1 + c1 + l2 + c2 + l3, c3, t.subrange(off_l4(a), t.len() as int), t);
    assert(t =~= (l1 + c1 + l2 + c2 + l3 + c3) + l4 + t.subrange(off_dy(a), t.len() as int));
    lemma_mid(l1 + c1 + l2 + c2 + l3 + c3, l4, t.subrange(off_dy(a), t.len() as int), t);
    assert(t[off_l3(a)] == t.subrange(off_l3(a), off_out(a))[0]);
}

/// Where the later parts of a configuration's canonical text stand.
#[verifier::rlimit(100)]
proof fn lemma_args_json_parts_c(a: ExecProgramArgs)
    ensures
        args_json(a).subrange(off_dy(a), off_l5(a)) == json_bool(a.disable_yaml_result),
        args_json(a).subrange(off_l5(a), off_db(a)) == ",\"debug\":"@,
        args_json(a).subrange(off_db(a), off_l6(a)) == json_bool(a.debug),
{
    let t = args_json(a);
    let l1 = "{\"work_dir\":"@;
    let c1 = json_opt_string(opt_view(a.work_dir));
    let l2 = ",\"k_filename_list\":["@;
    let c2 = json_string_list(views_of(a.k_filename_list@));
    let l3 = "],\"output\":"@;
    let c3 = json_opt_string(opt_view(a.output));
    let l4 = ",\"disable_yaml_result\":"@;
    let c4 = json_bool(a.disable_yaml_result);
    let l5 = ",\"debug\":"@;
    let c5 = json_bool(a.debug);
    let l6 = ",\"sort_keys\":"@;
    let c6 = json_bool(a.sort_keys);
    let l7 = "}"@;
    reveal_strlit("}");
    reveal_strlit("],\"output\":");
    assert(t =~= (l1 + c1 + l2 + c2 + l3 + c3 + l4) + c4 + t.subrange(
        off_l5(a),
        t.len() as int,
    ));
    lemma_mid(l1 + c1 + l2 + c2 + l3 + c3 + l4, c4, t.subrange(off_l5(a), t.len() as int), t);
    assert(t =~= (l1 + c1 + l2 + c2 + l3 + c3 + l4 + c4) + l5 + t.subrange(
        off_db(a),
        t.len() as int,
    ));
    lemma_mid(l1 + c1 + l2 + c2 + l3 + c3 + l4 + c4, l5, t.subrange(off_db(a), t.len() as int), t);
    assert(t =~= (l1 + c1 + l2 + c2 + l3 + c3 + l4 + c4 + l5) + c5 + t.subrange(
        off_l6(a),
        t.len() as int,
    ));
    lemma_mid(
        l1 + c1 + l2 + c2 + l3 + c3 + l4 + c4 + l5,
        c5,
        t.subrange(off_l6(a), t.len() as int),
        t,
    );
}

/// Where the last parts of a configuration's canonical text stand.
#[verifier::rlimit(100)]
proof fn lemma_args_json_parts_d(a: ExecProgramArgs)
    ensures
        args_json(a).subrange(off_l6(a), off_sk(a)) == ",\"sort_keys\":"@,
        args_json(a).subrange(off_sk(a), off_l7(a)) == json_bool(a.sort_keys),
        args_json(a).subrange(off_l7(a), off_l7(a) + 1) == "}"@,
        args_json(a).len() == off_l7(a) + 1,
{
    let t = args_json(a);
    let l1 = "{\"work_dir\":"@;
    let c1 = json_opt_string(opt_view(a.work_dir));
    let l2 = ",\"k_filename_list\":["@;
    let c2 = json_string_list(views_of(a.k_filename_list@));
    let l3 = "],\"output\":"@;
    let c3 = json_opt_string(opt_view(a.output));
    let l4 = ",\"disable_yaml_result\":"@;
    let c4 = json_bool(a.disable_yaml_result);
    let l5 = ",\"debug\":"@;
    let c5 = json_bool(a.debug);
    let l6 = ",\"sort_keys\":"@;
    let c6 = json_bool(a.sort_keys);
    let l7 = "}"@;
    reveal_strlit("}");
    reveal_strlit("],\"output\":");
    assert(t.len() == off_l7(a) + 1);
    assert(t =~= (l1 + c1 + l2 + c2 + l3 + c3 + l4 + c4 + l5 + c5) + l6 + t.subrange(
        off_sk(a),
        t.len() as int,
    ));
    lemma_mid(
        l1 + c1 + l2 + c2 + l3 + c3 + l4 + c4 + l5 + c5,
        l6,
        t.subrange(off_sk(a), t.len() as int),
        t,
    );
    assert(t =~= (l1 + c1 + l2 + c2 + l3 + c3 + l4 + c4 + l5 + c5 + l6) + c6 + t.subrange(
        off_l7(a),
        t.len() as int,
    ));
    lemma_mid(
        l1 + c1 + l2 + c2 + l3 + c3 + l4 + c4 + l5 + c5 + l6,
        c6,
        t.subrange(off_l7(a), t.len() as int),
        t,
    );
    assert(t =~= (l1 + c1 + l2 + c2 + l3 + c3 + l4 + c4 + l5 + c5 + l6 + c6) + l7
        + Seq::<char>::empty());
    lemma_mid(l1 + c1 + l2 + c2 + l3 + c3 + l4 + c4 + l5 + c5 + l6 + c6, l7, Seq::empty(), t);
}

/// Where each part of a configuration's canonical text stands in it.
proof fn lemma_args_json_parts(a: ExecProgramArgs)
    ensures
        args_json(a).len() == off_l7(a) + 1,
        args_json(a).subrange(0, off_wd(a)) == "{\"work_dir\":"@,
        args_json(a).subrange(off_wd(a), off_l2(a)) == json_opt_string(opt_view(a.work_dir)),
        args_json(a).subrange(off_l2(a), off_list(a)) == ",\"k_filename_list\":["@,
        args_json(a).subrange(off_list(a), off_l3(a)) == json_string_list(
            views_of(a.k_filename_list@),
        ),
        args_json(a).subrange(off_l3(a), off_out(a)) == "],\"output\":"@,
        args_json(a)[off_l3(a)] == ']',
        args_json(a).subrange(off_out(a), off_l4(a)) == json_opt_string(opt_view(a.output)),
        args_json(a).subrange(off_l4(a), off_dy(a)) == ",\"disable_yaml_result\":"@,
        args_json(a).subrange(off_dy(a), off_l5(a)) == json_bool(a.disable_yaml_result),
        args_json(a).subrange(off_l5(a), off_db(a)) == ",\"debug\":"@,
        args_json(a).subrange(off_db(a), off_l6(a)) == json_bool(a.debug),
        args_json(a).subrange(off_l6(a), off_sk(a)) == ",\"sort_keys\":"@,
        args_json(a).subrange(off_sk(a), off_l7(a)) == json_bool(a.sort_keys),
        args_json(a).subrange(off_l7(a), off_l7(a) + 1) == "}"@,
{
    lemma_args_json_parts_a(a);
    lemma_args_json_parts_b(a);
    lemma_args_json_parts_c(a);
    lemma_args_json_parts_d(a);
}

/// What a canonical text holds where this stage of the parse looks.
#[verifier::rlimit(100)]
proof fn lemma_canonical_stage_1(s: Seq<char>)
    ensures
        forall|a: ExecProgramArgs| #![trigger args_json(a)] args_json(a) == s ==> (s.subrange(0, off_wd(a)) == "{\"work_dir\":"@ && off_wd(a) <= s.len()),
{
    assert forall|a: ExecProgramArgs| #![trigger args_json(a)] args_json(a) == s implies (s.subrange(0, off_wd(a)) == "{\"work_dir\":"@ && off_wd(a) <= s.len()) by {
            lemma_args_json_parts(a);
            reveal_strlit("}");
            reveal_strlit("],\"output\":");
            assert(s.subrange(0, off_wd(a)) == "{\"work_dir\":"@ && off_wd(a) <= s.len());
    }
}

/// What a canonical text holds where this stage of the parse looks.
#[verifier::rlimit(100)]
proof fn lemma_canonical_stage_2(s: Seq<char>)
    ensures
        forall|a: ExecProgramArgs| #![trigger args_json(a)] args_json(a) == s ==> ((a.work_dir matches Some(w) ==> string_lit_at(s, off_wd(a), w@) && off_l2(a) == off_wd(a) + json_string(w@).len()) && (a.work_dir is None ==> off_l2(a) <= s.len() && off_l2(a) == off_wd(a) + json_opt_string(Option::<Seq<char>>::None).len() && s.subrange(off_wd(a), off_l2(a)) == json_opt_string(Option::<Seq<char>>::None))),
{
    assert forall|a: ExecProgramArgs| #![trigger args_json(a)] args_json(a) == s implies ((a.work_dir matches Some(w) ==> string_lit_at(s, off_wd(a), w@) && off_l2(a) == off_wd(a) + json_string(w@).len()) && (a.work_dir is None ==> off_l2(a) <= s.len() && off_l2(a) == off_wd(a) + json_opt_string(Option::<Seq<char>>::None).len() && s.subrange(off_wd(a), off_l2(a)) == json_opt_string(Option::<Seq<char>>::None))) by {
            lemma_args_json_parts(a);
            reveal_strlit("}");
            reveal_strlit("],\"output\":");
            if a.work_dir is Some {
                let w0 = choose|w: String| a.work_dir == Option::Some(w);
                assert(opt_view(a.work_dir) == Option::Some(w0@));
                assert(string_lit_at(s, off_wd(a), w0@));
            } else {
                assert(opt_view(a.work_dir) is None);
            }
    }
}

/// What a canonical text holds where this stage of the parse looks.
#[verifier::rlimit(100)]
proof fn lemma_canonical_stage_3(s: Seq<char>)
    ensures
        forall|a: ExecProgramArgs| #![trigger args_json(a)] args_json(a) == s ==> (s.subrange(off_l2(a), off_list(a)) == ",\"k_filename_list\":["@ && off_list(a) <= s.len()),
{
    assert forall|a: ExecProgramArgs| #![trigger args_json(a)] args_json(a) == s implies (s.subrange(off_l2(a), off_list(a)) == ",\"k_filename_list\":["@ && off_list(a) <= s.len()) by {
            lemma_args_json_parts(a);
            reveal_strlit("}");
            reveal_strlit("],\"output\":");
            assert(s.subrange(off_l2(a), off_list(a)) == ",\"k_filename_list\":["@ && off_list(a) <= s.len());
    }
}

/// What a canonical text holds where this stage of the parse looks.
#[verifier::rlimit(100)]
proof fn lemma_canonical_stage_4(s: Seq<char>)
    ensures
        forall|a: ExecProgramArgs| #![trigger args_json(a)] args_json(a) == s ==> (list_body_at(s, off_list(a), views_of(a.k_filename_list@))),
{
    assert forall|a: ExecProgramArgs| #![trigger args_json(a)] args_json(a) == s implies (list_body_at(s, off_list(a), views_of(a.k_filename_list@))) by {
            lemma_args_json_parts(a);
            reveal_strlit("}");
            reveal_strlit("],\"output\":");
            assert(list_body_at(s, off_list(a), views_of(a.k_filename_list@)));
    }
}

/// What a canonical text holds where this stage of the parse looks.
#[verifier::rlimit(100)]
proof fn lemma_canonical_stage_5(s: Seq<char>)
    ensures
        forall|a: ExecProgramArgs| #![trigger args_json(a)] args_json(a) == s ==> (s.subrange(off_l3(a), off_out(a)) == "],\"output\":"@ && off_out(a) <= s.len()),
{
    assert forall|a: ExecProgramArgs| #![trigger args_json(a)] args_json(a) == s implies (s.subrange(off_l3(a), off_out(a)) == "],\"output\":"@ && off_out(a) <= s.len()) by {
            lemma_args_json_parts(a);
            reveal_strlit("}");
            reveal_strlit("],\"output\":");
            assert(s.subrange(off_l3(a), off_out(a)) == "],\"output\":"@ && off_out(a) <= s.len());
    }
}

/// What a canonical text holds where this stage of the parse looks.
#[verifier::rlimit(100)]
proof fn lemma_canonical_stage_6(s: Seq<char>)
    ensures
        forall|a: ExecProgramArgs| #![trigger args_json(a)] args_json(a) == s ==> ((a.output matches Some(w) ==> string_lit_at(s, off_out(a), w@) && off_l4(a) == off_out(a) + json_string(w@).len()) && (a.output is None ==> off_l4(a) <= s.len() && off_l4(a) == off_out(a) + json_opt_string(Option::<Seq<char>>::None).len() && s.subrange(off_out(a), off_l4(a)) == json_opt_string(Option::<Seq<char>>::None))),
{
    assert forall|a: ExecProgramArgs| #![trigger args_json(a)] args_json(a) == s implies ((a.output matches Some(w) ==> string_lit_at(s, off_out(a), w@) && off_l4(a) == off_out(a) + json_string(w@).len()) && (a.output is None ==> off_l4(a) <= s.len() && off_l4(a) == off_out(a) + json_opt_string(Option::<Seq<char>>::None).len() && s.subrange(off_out(a), off_l4(a)) == json_opt_string(Option::<Seq<char>>::None))) by {
            lemma_args_json_parts(a);
            reveal_strlit("}");
            reveal_strlit("],\"output\":");
            if a.output is Some {
                let w0 = choose|w: String| a.output == Option::Some(w);
                assert(opt_view(a.output) == Option::Some(w0@));
                assert(string_lit_at(s, off_out(a), w0@));
            } else {
                assert(opt_view(a.output) is None);
            }
    }
}

/// What a canonical text holds where this stage of the parse looks.
#[verifier::rlimit(100)]
proof fn lemma_canonical_stage_7(s: Seq<char>)
    ensures
        forall|a: ExecProgramArgs| #![trigger args_json(a)] args_json(a) == s ==> (s.subrange(off_l4(a), off_dy(a)) == ",\"disable_yaml_result\":"@ && off_dy(a) <= s.len()),
{
    assert forall|a: ExecProgramArgs| #![trigger args_json(a)] args_json(a) == s implies (s.subrange(off_l4(a), off_dy(a)) == ",\"disable_yaml_result\":"@ && off_dy(a) <= s.len()) by {
            lemma_args_json_parts(a);
            reveal_strlit("}");
            reveal_strlit("],\"output\":");
            assert(s.subrange(off_l4(a), off_dy(a)) == ",\"disable_yaml_result\":"@ && off_dy(a) <= s.len());
    }
}

/// What a canonical text holds where this stage of the parse looks.
#[verifier::rlimit(100)]
proof fn lemma_canonical_stage_8(s: Seq<char>)
    ensures
        forall|a: ExecProgramArgs| #![trigger args_json(a)] args_json(a) == s ==> ((a.disable_yaml_result ==> off_l5(a) <= s.len() && off_l5(a) == off_dy(a) + json_bool(true).len() && s.subrange(off_dy(a), off_l5(a)) == json_bool(true)) && (!a.disable_yaml_result ==> off_l5(a) <= s.len() && off_l5(a) == off_dy(a) + json_bool(false).len() && s.subrange(off_dy(a), off_l5(a)) == json_bool(false))),
{
    assert forall|a: ExecProgramArgs| #![trigger args_json(a)] args_json(a) == s implies ((a.disable_yaml_result ==> off_l5(a) <= s.len() && off_l5(a) == off_dy(a) + json_bool(true).len() && s.subrange(off_dy(a), off_l5(a)) == json_bool(true)) && (!a.disable_yaml_result ==> off_l5(a) <= s.len() && off_l5(a) == off_dy(a) + json_bool(false).len() && s.subrange(off_dy(a), off_l5(a)) == json_bool(false))) by {
            lemma_args_json_parts(a);
            reveal_strlit("}");
            reveal_strlit("],\"output\":");

    }
}

/// What a canonical text holds where this stage of the parse looks.
#[verifier::rlimit(100)]
proof fn lemma_canonical_stage_9(s: Seq<char>)
    ensures
        forall|a: ExecProgramArgs| #![trigger args_json(a)] args_json(a) == s ==> (s.subrange(off_l5(a), off_db(a)) == ",\"debug\":"@ && off_db(a) <= s.len()),
{
    assert forall|a: ExecProgramArgs| #![trigger args_json(a)] args_json(a) == s implies (s.subrange(off_l5(a), off_db(a)) == ",\"debug\":"@ && off_db(a) <= s.len()) by {
            lemma_args_json_parts(a);
            reveal_strlit("}");
            reveal_strlit("],\"output\":");
            assert(s.subrange(off_l5(a), off_db(a)) == ",\"debug\":"@ && off_db(a) <= s.len());
    }
}

/// What a canonical text holds where this stage of the parse looks.
#[verifier::rlimit(100)]
proof fn lemma_canonical_stage_10(s: Seq<char>)
    ensures
        forall|a: ExecProgramArgs| #![trigger args_json(a)] args_json(a) == s ==> ((a.debug ==> off_l6(a) <= s.len() && off_l6(a) == off_db(a) + json_bool(true).len() && s.subrange(off_db(a), off_l6(a)) == json_bool(true)) && (!a.debug ==> off_l6(a) <= s.len() && off_l6(a) == off_db(a) + json_bool(false).len() && s.subrange(off_db(a), off_l6(a)) == json_bool(false))),
{
    assert forall|a: ExecProgramArgs| #![trigger args_json(a)] args_json(a) == s implies ((a.debug ==> off_l6(a) <= s.len() && off_l6(a) == off_db(a) + json_bool(true).len() && s.subrange(off_db(a), off_l6(a)) == json_bool(true)) && (!a.debug ==> off_l6(a) <= s.len() && off_l6(a) == off_db(a) + json_bool(false).len() && s.subrange(off_db(a), off_l6(a)) == json_bool(false))) by {
            lemma_args_json_parts(a);
            reveal_strlit("}");
            reveal_strlit("],\"output\":");

    }
}

/// What a canonical text holds where this stage of the parse looks.
#[verifier::rlimit(100)]
proof fn lemma_canonical_stage_11(s: Seq<char>)
    ensures
        forall|a: ExecProgramArgs| #![trigger args_json(a)] args_json(a) == s ==> (s.subrange(off_l6(a), off_sk(a)) == ",\"sort_keys\":"@ && off_sk(a) <= s.len()),
{
    assert forall|a: ExecProgramArgs| #![trigger args_json(a)] args_json(a) == s implies (s.subrange(off_l6(a), off_sk(a)) == ",\"sort_keys\":"@ && off_sk(a) <= s.len()) by {
            lemma_args_json_parts(a);
            reveal_strlit("}");
            reveal_strlit("],\"output\":");
            assert(s.subrange(off_l6(a), off_sk(a)) == ",\"sort_keys\":"@ && off_sk(a) <= s.len());
    }
}

/// What a canonical text holds where this stage of the parse looks.
#[verifier::rlimit(100)]
proof fn lemma_canonical_stage_12(s: Seq<char>)
    ensures
        forall|a: ExecProgramArgs| #![trigger args_json(a)] args_json(a) == s ==> ((a.sort_keys ==> off_l7(a) <= s.len() && off_l7(a) == off_sk(a) + json_bool(true).len() && s.subrange(off_sk(a), off_l7(a)) == json_bool(true)) && (!a.sort_keys ==> off_l7(a) <= s.len() && off_l7(a) == off_sk(a) + json_bool(false).len() && s.subrange(off_sk(a), off_l7(a)) == json_bool(false))),
{
    assert forall|a: ExecProgramArgs| #![trigger args_json(a)] args_json(a) == s implies ((a.sort_keys ==> off_l7(a) <= s.len() && off_l7(a) == off_sk(a) + json_bool(true).len() && s.subrange(off_sk(a), off_l7(a)) == json_bool(true)) && (!a.sort_keys ==> off_l7(a) <= s.len() && off_l7(a) == off_sk(a) + json_bool(false).len() && s.subrange(off_sk(a), off_l7(a)) == json_bool(false))) by {
            lemma_args_json_parts(a);
            reveal_strlit("}");
            reveal_strlit("],\"output\":");

    }
}

/// What a canonical text holds at its end.
#[verifier::rlimit(100)]
proof fn lemma_canonical_stage_13(s: Seq<char>)
    ensures
        forall|a: ExecProgramArgs| #![trigger args_json(a)] args_json(a) == s ==> (s.subrange(
            off_l7(a),
            off_l7(a) + 1,
        ) == "}"@ && s.len() == off_l7(a) + 1),
{
    assert forall|a: ExecProgramArgs| #![trigger args_json(a)] args_json(a) == s implies (
    s.subrange(off_l7(a), off_l7(a) + 1) == "}"@ && s.len() == off_l7(a) + 1) by {
            lemma_args_json_parts(a);
            reveal_strlit("}");
            reveal_strlit("],\"output\":");
    }
}

impl ExecProgramArgs {
    /// The canonical JSON text of this configuration.
    pub fn to_json(&self) -> (r: String)
        ensures
            r@ == args_json(*self),
    {
        let mut out = String::from_str("{\"work_dir\":");
        append_json_opt_string(&mut out, &self.work_dir);
        out.append(",\"k_filename_list\":[");
        append_json_string_list(&mut out, &self.k_filename_list);
        out.append("],\"output\":");
        append_json_opt_string(&mut out, &self.output);
        out.append(",\"disable_yaml_result\":");
        append_json_bool(&mut out, self.disable_yaml_result);
        out.append(",\"debug\":");
        append_json_bool(&mut out, self.debug);
        out.append(",\"sort_keys\":");
        append_json_bool(&mut out, self.sort_keys);
        out.append("}");
        out
    }

    /// The input files of this configuration, as handed to the parser.
    pub fn get_files(&self) -> (r: Vec<String>)
        ensures
            views_of(r@) == views_of(self.k_filename_list@),
    {
        let mut r: Vec<String> = Vec::new();
        let mut i: usize = 0;
        while i < self.k_filename_list.len()
            invariant
                i <= self.k_filename_list@.len(),
                r@.len() == i,
                forall|j: int|
                    0 <= j < i ==> views_of(r@)[j] == views_of(self.k_filename_list@)[j],
            decreases self.k_filename_list@.len() - i,
        {
            let ghost r_pre = r@;
            r.push(self.k_filename_list[i].clone());
            proof {
                assert(views_of(r@) =~= views_of(r_pre).push(
                    views_of(self.k_filename_list@)[i as int],
                ));
            }
            i = i + 1;
        }
        proof {
            assert(views_of(r@) =~= views_of(self.k_filename_list@));
        }
        r
    }

    /// The load options this configuration derives for the parser.
    pub fn get_load_program_options(&self) -> (r: LoadProgramOptions)
        ensures
            opt_view(r.work_dir) == opt_view(self.work_dir),
    {
        let work_dir = match &self.work_dir {
            Option::None => Option::None,
            Option::Some(s) => Option::Some(s.clone()),
        };
        LoadProgramOptions { work_dir }
    }

    /// The configuration a canonical JSON text denotes: strict about the
    /// canonical shape, and sound by construction — whatever is accepted
    /// serializes back to exactly the given text.
    pub fn from_str(s: &str) -> (r: Option<ExecProgramArgs>)
        ensures
            r matches Some(a) ==> args_json(a) == s@,
            forall|a: ExecProgramArgs| #![trigger args_json(a)] args_json(a) == s@ ==> r
                is Some,
    {
        let parsed = Self::parse_canonical(s);
        match parsed {
            Option::None => {
                proof {
                    assert forall|a: ExecProgramArgs| #![trigger args_json(a)]
                        args_json(a) == s@ implies false by {}
                }
                Option::None
            },
            Option::Some(a) => {
                let back = a.to_json();
                if crate::strutil::str_eq(back.as_str(), s) {
                    Option::Some(a)
                } else {
                    proof {
                        assert forall|a0: ExecProgramArgs| #![trigger args_json(a0)]
                            args_json(a0) == s@ implies false by {
                            assert(args_json(a) == args_json(a0));
                        }
                    }
                    Option::None
                }
            },
        }
    }

    /// The first stages of the canonical parse: the opening literal, the
    /// working directory, and the input-file list.
    #[verifier::rlimit(100)]
    fn parse_canonical_head(s: &str, n: usize) -> (r: Option<(Option<String>, Vec<String>, usize)>)
        requires
            n == s@.len(),
        ensures
            r matches Some(t0) ==> t0.2 <= n,
            forall|a: ExecProgramArgs| #![trigger args_json(a)] args_json(a) == s@ ==> (r
                matches Some(t) && opt_view(t.0) == opt_view(a.work_dir) && views_of(t.1@)
                == views_of(a.k_filename_list@) && t.2 == off_l3(a)),
    {
        let i1 = match expect_lit(s, n, 0, "{\"work_dir\":") {
            Option::Some(j) => j,
            Option::None => {
                proof {
                    lemma_canonical_stage_1(s@);
                    assert forall|a: ExecProgramArgs| #![trigger args_json(a)]
                        args_json(a) == s@ implies false by {
                    }
                }
                return Option::None;
            },
        };
        proof {
            lemma_canonical_stage_1(s@);
            assert forall|a: ExecProgramArgs| #![trigger args_json(a)]
                args_json(a) == s@ implies i1 == off_wd(a) by {
            }
        }
        let (wd, i2) = match parse_opt_string_at(s, n, i1) {
            Option::Some(p) => p,
            Option::None => {
                proof {
                    lemma_canonical_stage_2(s@);
                    assert forall|a: ExecProgramArgs| #![trigger args_json(a)]
                        args_json(a) == s@ implies false by {
                        if a.work_dir is Some {
                            let w0 = choose|w: String| a.work_dir == Option::Some(w);
                            assert(string_lit_at(s@, i1 as int, w0@));
                        }
                    }
                }
                return Option::None;
            },
        };
        proof {
            lemma_canonical_stage_2(s@);
            assert forall|a: ExecProgramArgs| #![trigger args_json(a)]
                args_json(a) == s@ implies i1 == off_wd(a) && opt_view(wd) == opt_view(a.work_dir) && i2 == off_l2(a) by {
                    if a.work_dir is Some {
                        let w0 = choose|w: String| a.work_dir == Option::Some(w);
                        assert(string_lit_at(s@, i1 as int, w0@));
                    }
            }
        }
        let i3 = match expect_lit(s, n, i2, ",\"k_filename_list\":[") {
            Option::Some(j) => j,
            Option::None => {
                proof {
                    lemma_canonical_stage_3(s@);
                    assert forall|a: ExecProgramArgs| #![trigger args_json(a)]
                        args_json(a) == s@ implies false by {
                    }
                }
                return Option::None;
            },
        };
        proof {
            lemma_canonical_stage_3(s@);
            assert forall|a: ExecProgramArgs| #![trigger args_json(a)]
                args_json(a) == s@ implies i1 == off_wd(a) && opt_view(wd) == opt_view(a.work_dir) && i2 == off_l2(a) && i3 == off_list(a) by {
            }
        }
        let (lst, i4) = match parse_string_list_at(s, n, i3) {
            Option::Some(p) => p,
            Option::None => {
                proof {
                    lemma_canonical_stage_4(s@);
                    assert forall|a: ExecProgramArgs| #![trigger args_json(a)]
                        args_json(a) == s@ implies false by {
                    }
                }
                return Option::None;
            },
        };
        proof {
            lemma_canonical_stage_4(s@);
            assert forall|a: ExecProgramArgs| #![trigger args_json(a)]
                args_json(a) == s@ implies i1 == off_wd(a) && opt_view(wd) == opt_view(a.work_dir) && i2 == off_l2(a) && i3 == off_list(a) && views_of(lst@) == views_of(a.k_filename_list@) && i4 == off_l3(a) by {
            }
        }
        Option::Some((wd, lst, i4))
    }

    /// The middle stages of the canonical parse: the output path and the
    /// first flag.
    #[verifier::rlimit(100)]
    fn parse_canonical_mid(s: &str, n: usize, j0: usize) -> (r: Option<(Option<String>, bool, usize)>)
        requires
            n == s@.len(),
            j0 <= n,
            forall|a: ExecProgramArgs| #![trigger args_json(a)] args_json(a) == s@ ==> j0
                == off_l3(a),
        ensures
            r matches Some(t0) ==> t0.2 <= n,
            forall|a: ExecProgramArgs| #![trigger args_json(a)] args_json(a) == s@ ==> (r
                matches Some(t) && opt_view(t.0) == opt_view(a.output) && t.1
                == a.disable_yaml_result && t.2 == off_l5(a)),
    {
        let i5 = match expect_lit(s, n, j0, "],\"output\":") {
            Option::Some(j) => j,
            Option::None => {
                proof {
                    lemma_canonical_stage_5(s@);
                    assert forall|a: ExecProgramArgs| #![trigger args_json(a)]
                        args_json(a) == s@ implies false by {
                    }
                }
                return Option::None;
            },
        };
        proof {
            lemma_canonical_stage_5(s@);
            assert forall|a: ExecProgramArgs| #![trigger args_json(a)]
                args_json(a) == s@ implies i5 == off_out(a) by {
            }
        }
        let (outp, i6) = match parse_opt_string_at(s, n, i5) {
            Option::Some(p) => p,
            Option::None => {
                proof {
                    lemma_canonical_stage_6(s@);
                    assert forall|a: ExecProgramArgs| #![trigger args_json(a)]
                        args_json(a) == s@ implies false by {
                        if a.output is Some {
                            let w0 = choose|w: String| a.output == Option::Some(w);
                            assert(string_lit_at(s@, i5 as int, w0@));
                        }
                    }
                }
                return Option::None;
            },
        };
        proof {
            lemma_canonical_stage_6(s@);
            assert forall|a: ExecProgramArgs| #![trigger args_json(a)]
                args_json(a) == s@ implies i5 == off_out(a) && opt_view(outp) == opt_view(a.output) && i6 == off_l4(a) by {
                    if a.output is Some {
                        let w0 = choose|w: String| a.output == Option::Some(w);
                        assert(string_lit_at(s@, i5 as int, w0@));
                    }
            }
        }
        let i7 = match expect_lit(s, n, i6, ",\"disable_yaml_result\":") {
            Option::Some(j) => j,
            Option::None => {
                proof {
                    lemma_canonical_stage_7(s@);
                    assert forall|a: ExecProgramArgs| #![trigger args_json(a)]
                        args_json(a) == s@ implies false by {
                    }
                }
                return Option::None;
            },
        };
        proof {
            lemma_canonical_stage_7(s@);
            assert forall|a: ExecProgramArgs| #![trigger args_json(a)]
                args_json(a) == s@ implies i5 == off_out(a) && opt_view(outp) == opt_view(a.output) && i6 == off_l4(a) && i7 == off_dy(a) by {
            }
        }
        let (dy, i8) = match parse_bool_at(s, n, i7) {
            Option::Some(p) => p,
            Option::None => {
                proof {
                    lemma_canonical_stage_8(s@);
                    assert forall|a: ExecProgramArgs| #![trigger args_json(a)]
                        args_json(a) == s@ implies false by {
                    }
                }
                return Option::None;
            },
        };
        proof {
            lemma_canonical_stage_8(s@);
            assert forall|a: ExecProgramArgs| #![trigger args_json(a)]
                args_json(a) == s@ implies i5 == off_out(a) && opt_view(outp) == opt_view(a.output) && i6 == off_l4(a) && i7 == off_dy(a) && dy == a.disable_yaml_result && i8 == off_l5(a) by {
            }
        }
        Option::Some((outp, dy, i8))
    }

    /// The last stages of the canonical parse: the two remaining flags and
    /// the closing brace, which must end the text.
    #[verifier::rlimit(100)]
    fn parse_canonical_tail(s: &str, n: usize, j0: usize) -> (r: Option<(bool, bool)>)
        requires
            n == s@.len(),
            j0 <= n,
            forall|a: ExecProgramArgs| #![trigger args_json(a)] args_json(a) == s@ ==> j0
                == off_l5(a),
        ensures
            forall|a: ExecProgramArgs| #![trigger args_json(a)] args_json(a) == s@ ==> (r
                matches Some(t) && t.0 == a.debug && t.1 == a.sort_keys),
    {
        proof {
            lemma_canonical_stage_13(s@);
        }
        let i9 = match expect_lit(s, n, j0, ",\"debug\":") {
            Option::Some(j) => j,
            Option::None => {
                proof {
                    lemma_canonical_stage_9(s@);
                    assert forall|a: ExecProgramArgs| #![trigger args_json(a)]
                        args_json(a) == s@ implies false by {
                    }
                }
                return Option::None;
            },
        };
        proof {
            lemma_canonical_stage_9(s@);
            assert forall|a: ExecProgramArgs| #![trigger args_json(a)]
                args_json(a) == s@ implies i9 == off_db(a) by {
            }
        }
        let (db, i10) = match parse_bool_at(s, n, i9) {
            Option::Some(p) => p,
            Option::None => {
                proof {
                    lemma_canonical_stage_10(s@);
                    assert forall|a: ExecProgramArgs| #![trigger args_json(a)]
                        args_json(a) == s@ implies false by {
                    }
                }
                return Option::None;
            },
        };
        proof {
            lemma_canonical_stage_10(s@);
            assert forall|a: ExecProgramArgs| #![trigger args_json(a)]
                args_json(a) == s@ implies i9 == off_db(a) && db == a.debug && i10 == off_l6(a) by {
            }
        }
        let i11 = match expect_lit(s, n, i10, ",\"sort_keys\":") {
            Option::Some(j) => j,
            Option::None => {
                proof {
                    lemma_canonical_stage_11(s@);
                    assert forall|a: ExecProgramArgs| #![trigger args_json(a)]
                        args_json(a) == s@ implies false by {
                    }
                }
                return Option::None;
            },
        };
        proof {
            lemma_canonical_stage_11(s@);
            assert forall|a: ExecProgramArgs| #![trigger args_json(a)]
                args_json(a) == s@ implies i9 == off_db(a) && db == a.debug && i10 == off_l6(a) && i11 == off_sk(a) by {
            }
        }
        let (sk, i12) = match parse_bool_at(s, n, i11) {
            Option::Some(p) => p,
            Option::None => {
                proof {
                    lemma_canonical_stage_12(s@);
                    assert forall|a: ExecProgramArgs| #![trigger args_json(a)]
                        args_json(a) == s@ implies false by {
                    }
                }
                return Option::None;
            },
        };
        proof {
            lemma_canonical_stage_12(s@);
            assert forall|a: ExecProgramArgs| #![trigger args_json(a)]
                args_json(a) == s@ implies i9 == off_db(a) && db == a.debug && i10 == off_l6(a) && i11 == off_sk(a) && sk == a.sort_keys && i12 == off_l7(a) by {
            }
        }
        let i13 = match expect_lit(s, n, i12, "}") {
            Option::Some(j) => j,
            Option::None => {
                proof {
                    assert forall|a: ExecProgramArgs| #![trigger args_json(a)]
                        args_json(a) == s@ implies false by {
                        assert(s@.subrange(i12 as int, i12 + 1) == "}"@);
                    }
                }
                return Option::None;
            },
        };
        if i13 != n {
            proof {
                assert forall|a: ExecProgramArgs| #![trigger args_json(a)]
                    args_json(a) == s@ implies false by {
                    assert(s@.subrange(i12 as int, i12 + 1) == "}"@);
                }
            }
            return Option::None;
        }
        Option::Some((db, sk))
    }

    /// Read a configuration from the canonical JSON shape; any deviation
    /// is rejected, and every canonical text is accepted.
    fn parse_canonical(s: &str) -> (r: Option<ExecProgramArgs>)
        ensures
            forall|a: ExecProgramArgs| #![trigger args_json(a)] args_json(a) == s@ ==> (r
                matches Some(b) && args_json(b) == args_json(a)),
    {
        let n = s.unicode_len();
        let (wd, lst, i4) = match Self::parse_canonical_head(s, n) {
            Option::Some(t) => t,
            Option::None => {
                return Option::None;
            },
        };
        let (outp, dy, i8) = match Self::parse_canonical_mid(s, n, i4) {
            Option::Some(t) => t,
            Option::None => {
                return Option::None;
            },
        };
        let (db, sk) = match Self::parse_canonical_tail(s, n, i8) {
            Option::Some(t) => t,
            Option::None => {
                return Option::None;
            },
        };
        Option::Some(
            ExecProgramArgs {
                work_dir: wd,
                k_filename_list: lst,
                output: outp,
                disable_yaml_result: dy,
                debug: db,
                sort_keys: sk,
            },
        )
    }

    /// The configuration a loaded settings file denotes.
    pub fn from_settings_file(s: SettingsFile) -> (r: ExecProgramArgs)
        ensures
            r == spec_from_settings(s),
    {
        ExecProgramArgs {
            work_dir: s.work_dir,
            k_filename_list: s.input_files,
            output: s.output,
            disable_yaml_result: s.disable_yaml_result,
            debug: s.debug,
            sort_keys: s.sort_keys,
        }
    }
}

impl Default for ExecProgramArgs {
    /// The default configuration: no working directory, no inputs, no
    /// output path, YAML result enabled, nothing else switched on.
    fn default() -> (r: ExecProgramArgs)
        ensures
            r.work_dir is None,
            r.k_filename_list@.len() == 0,
            r.output is None,
            !r.disable_yaml_result,
            !r.debug,
            !r.sort_keys,
    {
        ExecProgramArgs {
            work_dir: Option::None,
            k_filename_list: Vec::new(),
            output: Option::None,
            disable_yaml_result: false,
            debug: false,
            sort_keys: false,
        }
    }
}

/// Round-trip: a configuration constructed from a settings file has the
/// same canonical JSON text as one constructed directly from equivalent
/// literal fields.
pub proof fn lemma_settings_round_trip(s: SettingsFile, a: ExecProgramArgs)
    requires
        opt_view(a.work_dir) == opt_view(s.work_dir),
        views_of(a.k_filename_list@) == views_of(s.input_files@),
        opt_view(a.output) == opt_view(s.output),
        a.disable_yaml_result == s.disable_yaml_result,
        a.debug == s.debug,
        a.sort_keys == s.sort_keys,
    ensures
        args_json(spec_from_settings(s)) == args_json(a),
{
}

} // verus!
