//! Output normalization, score formatting, and small path helpers.

use vstd::prelude::*;
use crate::text::{
    append_chars, chars_of, copy_range, dec_string, i64_to_string, lower_char, lower_chars,
    lower_seq, matches_at, split_lines_seq, string_from_chars, trim_chars, trim_end_seq, trim_seq,
    trim_start_seq, views_of, lemma_split_lines_len, lemma_split_push_newline,
    lemma_split_push_char,
};

verus! {

/// One line of output, normalized for comparison: white space trimmed from
/// both ends, case folded unless the comparison is case sensitive, and a
/// uniform `'\n'` terminator restored.
pub open spec fn norm_line_seq(l: Seq<char>, case_sensitive: bool) -> Seq<char> {
    if case_sensitive {
        trim_seq(l).push('\n')
    } else {
        lower_seq(trim_seq(l)).push('\n')
    }
}

/// Every line of `ls` normalized.
pub open spec fn map_norm(ls: Seq<Seq<char>>, case_sensitive: bool) -> Seq<Seq<char>> {
    ls.map_values(|l: Seq<char>| norm_line_seq(l, case_sensitive))
}

/// What [`normalize_lines`] returns: the input split on `'\n'`, each line
/// normalized.
pub open spec fn spec_normalize_lines(s: Seq<char>, case_sensitive: bool) -> Seq<Seq<char>> {
    map_norm(split_lines_seq(s), case_sensitive)
}

/// Normalizes one line: trims both ends, folds to lower case unless the
/// comparison is case sensitive, and restores a `'\n'` terminator.
pub fn norm_line(l: &Vec<char>, case_sensitive: bool) -> (r: String)
    ensures
        r@ == norm_line_seq(l@, case_sensitive),
{
    let t = trim_chars(l);
    let mut w = if case_sensitive {
        t
    } else {
        lower_chars(&t)
    };
    w.push('\n');
    string_from_chars(&w)
}

/// Splits `s` into lines, trims each line on both ends, folds it to lower
/// case unless `case_sensitive` is set, and restores a `'\n'` terminator on
/// every line.
pub fn normalize_lines(s: &str, case_sensitive: bool) -> (r: Vec<String>)
    ensures
        views_of(r@) == spec_normalize_lines(s@, case_sensitive),
{
    let v = chars_of(s);
    let n = v.len();
    let mut done: Vec<String> = Vec::new();
    let mut cur: Vec<char> = Vec::new();
    proof {
        assert(v@.subrange(0, 0) =~= Seq::<char>::empty());
        assert(views_of(done@) =~~= map_norm(
            split_lines_seq(v@.subrange(0, 0)).drop_last(),
            case_sensitive,
        ));
        assert(cur@ =~= split_lines_seq(v@.subrange(0, 0)).last());
    }
    let mut i: usize = 0;
    while i < n
        invariant
            i <= n,
            n == v@.len(),
            v@ == s@,
            views_of(done@) == map_norm(
                split_lines_seq(v@.subrange(0, i as int)).drop_last(),
                case_sensitive,
            ),
            cur@ == split_lines_seq(v@.subrange(0, i as int)).last(),
        decreases n - i,
    {
        let ghost p = v@.subrange(0, i as int);
        let ghost sp = split_lines_seq(p);
        proof {
            lemma_split_lines_len(p);
            assert(v@.subrange(0, i + 1 as int) =~= p.push(v@[i as int]));
        }
        let c = v[i];
        if c == '\n' {
            proof {
                lemma_split_push_newline(p);
            }
            let line = norm_line(&cur, case_sensitive);
            done.push(line);
            cur = Vec::new();
            proof {
                let sq = split_lines_seq(p.push('\n'));
                assert(sq.drop_last() =~~= sp);
                assert(sp =~~= sp.drop_last().push(sp.last()));
                assert(map_norm(sp, case_sensitive) =~~= map_norm(
                    sp.drop_last(),
                    case_sensitive,
                ).push(norm_line_seq(sp.last(), case_sensitive)));
                assert(views_of(done@) =~~= map_norm(sq.drop_last(), case_sensitive));
                assert(cur@ =~= sq.last());
            }
        } else {
            proof {
                lemma_split_push_char(p, c);
            }
            cur.push(c);
            proof {
                let sq = split_lines_seq(p.push(c));
                assert(sq.drop_last() =~~= sp.drop_last());
                assert(views_of(done@) =~~= map_norm(sq.drop_last(), case_sensitive));
                assert(cur@ =~= sq.last());
            }
        }
        i = i + 1;
    }
    proof {
        assert(v@.subrange(0, n as int) =~= s@);
    }
    let ghost sp = split_lines_seq(s@);
    let line = norm_line(&cur, case_sensitive);
    done.push(line);
    proof {
        lemma_split_lines_len(s@);
        assert(sp =~~= sp.drop_last().push(sp.last()));
        assert(map_norm(sp, case_sensitive) =~~= map_norm(sp.drop_last(), case_sensitive).push(
            norm_line_seq(sp.last(), case_sensitive),
        ));
        assert(views_of(done@) =~~= spec_normalize_lines(s@, case_sensitive));
    }
    done
}

/// The unpadded pass/fail label: `name(a/b) `.
pub open spec fn pass_fail_core(name: Seq<char>, a: int, b: int) -> Seq<char> {
    name + seq!['('] + dec_string(a) + seq!['/'] + dec_string(b) + seq![')', ' ']
}

/// What [`format_pass_fail`] returns: the label `name(score/rubric) `,
/// padded with spaces to the width the label has when the score equals the
/// rubric.
pub open spec fn spec_format_pass_fail(name: Seq<char>, rubric: int, score: int) -> Seq<char> {
    let full = pass_fail_core(name, rubric, rubric);
    let lbl = pass_fail_core(name, score, rubric);
    if lbl.len() < full.len() {
        lbl + Seq::new((full.len() - lbl.len()) as nat, |i: int| ' ')
    } else {
        lbl
    }
}

fn pass_fail_chars(name: &Vec<char>, a: i64, b: i64) -> (r: Vec<char>)
    ensures
        r@ == pass_fail_core(name@, a as int, b as int),
{
    let mut out: Vec<char> = Vec::new();
    append_chars(&mut out, name);
    out.push('(');
    let av = i64_to_string(a);
    let ac = chars_of(av.as_str());
    append_chars(&mut out, &ac);
    out.push('/');
    let bv = i64_to_string(b);
    let bc = chars_of(bv.as_str());
    append_chars(&mut out, &bc);
    out.push(')');
    out.push(' ');
    proof {
        assert(out@ =~= pass_fail_core(name@, a as int, b as int));
    }
    out
}

/// Formats one test case's pass/fail label, `name(score/rubric) `, padded to
/// the width of the all-points-earned form so that labels line up.
pub fn format_pass_fail(name: &str, rubric: i64, score: i64) -> (r: String)
    ensures
        r@ == spec_format_pass_fail(name@, rubric as int, score as int),
{
    let nv = chars_of(name);
    let full = pass_fail_chars(&nv, rubric, rubric);
    let mut lbl = pass_fail_chars(&nv, score, rubric);
    let ghost lbl0 = lbl@;
    let target = full.len();
    while lbl.len() < target
        invariant
            lbl0 == pass_fail_core(nv@, score as int, rubric as int),
            target == pass_fail_core(nv@, rubric as int, rubric as int).len(),
            lbl0.len() <= lbl@.len(),
            lbl@.len() <= target || lbl@.len() == lbl0.len(),
            lbl@ == lbl0 + Seq::new((lbl@.len() - lbl0.len()) as nat, |i: int| ' '),
        decreases target - lbl@.len(),
    {
        lbl.push(' ');
        proof {
            assert(lbl@ =~= lbl0 + Seq::new((lbl@.len() - lbl0.len()) as nat, |i: int| ' '));
        }
    }
    proof {
        assert(lbl@ =~= spec_format_pass_fail(name@, rubric as int, score as int));
    }
    string_from_chars(&lbl)
}

/// What [`expand_tilde`] returns: a leading `~/` replaced by the home
/// directory, any other path unchanged.
pub open spec fn spec_expand_tilde(p: Seq<char>, home: Seq<char>) -> Seq<char> {
    if p.len() >= 2 && p.subrange(0, 2) == seq!['~', '/'] {
        home + seq!['/'] + p.skip(2)
    } else {
        p
    }
}

/// Expands a leading `~/` in `p` to the given home directory.  The caller
/// looks the home directory up; the library does not read the environment.
pub fn expand_tilde(p: &str, home: &str) -> (r: String)
    ensures
        r@ == spec_expand_tilde(p@, home@),
{
    let pv = chars_of(p);
    let mut pat: Vec<char> = Vec::new();
    pat.push('~');
    pat.push('/');
    proof {
        assert(pat@ =~= seq!['~', '/']);
    }
    if matches_at(&pv, &pat, 0) {
        let hv = chars_of(home);
        let mut out: Vec<char> = Vec::new();
        append_chars(&mut out, &hv);
        out.push('/');
        let rest = copy_range(&pv, 2, pv.len());
        append_chars(&mut out, &rest);
        proof {
            assert(p@.subrange(0, 2) =~= seq!['~', '/']);
            assert(p@.skip(2) =~= pv@.subrange(2, pv@.len() as int));
            assert(out@ =~= spec_expand_tilde(p@, home@));
        }
        string_from_chars(&out)
    } else {
        proof {
            if p@.len() >= 2 && p@.subrange(0, 2) == seq!['~', '/'] {
                assert(false);
            }
        }
        let out = copy_range(&pv, 0, pv.len());
        proof {
            assert(out@ =~= p@);
        }
        string_from_chars(&out)
    }
}

/// The project part of a directory name: everything before the first `-`,
/// or the whole name when it has none.
pub open spec fn spec_project_prefix(name: Seq<char>) -> Seq<char> {
    if exists|k: int| 0 <= k < name.len() && name[k] == '-' {
        name.subrange(0, choose|k: int|
            0 <= k < name.len() && name[k] == '-' && (forall|j: int| 0 <= j < k ==> name[j] != '-'))
    } else {
        name
    }
}

/// Extracts the project name from a `project-student` directory name.
pub fn project_prefix(name: &str) -> (r: String)
    ensures
        r@ == spec_project_prefix(name@),
{
    let v = chars_of(name);
    match crate::text::index_of_char(&v, '-') {
        Some(i) => {
            let out = copy_range(&v, 0, i);
            proof {
                let ni = i as int;
                assert(exists|k: int|
                    0 <= k < name@.len() && name@[k] == '-' && (forall|j: int|
                        0 <= j < k ==> name@[j] != '-')) by {
                    assert(0 <= ni < name@.len() && name@[ni] == '-' && (forall|j: int|
                        0 <= j < ni ==> name@[j] != '-'));
                }
                let k = choose|k: int|
                    0 <= k < name@.len() && name@[k] == '-' && (forall|j: int|
                        0 <= j < k ==> name@[j] != '-');
                assert(0 <= k < name@.len() && name@[k] == '-' && (forall|j: int|
                    0 <= j < k ==> name@[j] != '-'));
                assert(k == ni);
            }
            string_from_chars(&out)
        },
        None => {
            let out = copy_range(&v, 0, v.len());
            proof {
                assert(out@ =~= name@);
            }
            string_from_chars(&out)
        },
    }
}

} // verus!

verus! {

/// Two texts that differ only in letter case: same length, same characters
/// after case folding.
pub open spec fn case_variant(a: Seq<char>, b: Seq<char>) -> bool {
    a.len() == b.len() && forall|i: int|
        0 <= i < a.len() ==> lower_char(#[trigger] a[i]) == lower_char(b[i])
}

/// Case folding changes neither what counts as white space nor where lines
/// break: two folded-equal characters are both spaces or neither, and both
/// newlines or neither.
pub proof fn lemma_lower_preserves_class(x: char, y: char)
    requires
        lower_char(x) == lower_char(y),
    ensures
        crate::text::is_space(x) == crate::text::is_space(y),
        (x == '\n') == (y == '\n'),
{
}

/// Trimming the start keeps case-variant texts case variants.
proof fn lemma_trim_start_variant(a: Seq<char>, b: Seq<char>)
    requires
        case_variant(a, b),
    ensures
        case_variant(trim_start_seq(a), trim_start_seq(b)),
    decreases a.len(),
{
    if a.len() > 0 {
        lemma_lower_preserves_class(a[0], b[0]);
        if crate::text::is_space(a[0]) {
            assert(case_variant(a.drop_first(), b.drop_first()));
            lemma_trim_start_variant(a.drop_first(), b.drop_first());
        }
    }
}

/// Trimming the end keeps case-variant texts case variants.
pub proof fn lemma_trim_end_variant(a: Seq<char>, b: Seq<char>)
    requires
        case_variant(a, b),
    ensures
        case_variant(trim_end_seq(a), trim_end_seq(b)),
    decreases a.len(),
{
    if a.len() > 0 {
        lemma_lower_preserves_class(a.last(), b.last());
        if crate::text::is_space(a.last()) {
            assert(case_variant(a.drop_last(), b.drop_last()));
            lemma_trim_end_variant(a.drop_last(), b.drop_last());
        }
    }
}

/// A case-insensitive normalization cannot tell case variants apart: the
/// normalized line is the same for both.
pub proof fn lemma_norm_line_case_variant(a: Seq<char>, b: Seq<char>)
    requires
        case_variant(a, b),
    ensures
        norm_line_seq(a, false) == norm_line_seq(b, false),
{
    lemma_trim_start_variant(a, b);
    lemma_trim_end_variant(trim_start_seq(a), trim_start_seq(b));
    assert(lower_seq(trim_seq(a)) =~= lower_seq(trim_seq(b)));
}

/// Case variants split into case-variant lines.
proof fn lemma_split_case_variant(a: Seq<char>, b: Seq<char>)
    requires
        case_variant(a, b),
    ensures
        split_lines_seq(a).len() == split_lines_seq(b).len(),
        forall|k: int|
            0 <= k < split_lines_seq(a).len() ==> case_variant(
                #[trigger] split_lines_seq(a)[k],
                split_lines_seq(b)[k],
            ),
    decreases a.len(),
{
    lemma_split_lines_len(a);
    lemma_split_lines_len(b);
    if a.len() == 0 {
        assert(case_variant(split_lines_seq(a)[0], split_lines_seq(b)[0]));
    } else {
        lemma_lower_preserves_class(a[0], b[0]);
        assert(case_variant(a.drop_first(), b.drop_first()));
        lemma_split_case_variant(a.drop_first(), b.drop_first());
        let ra = split_lines_seq(a.drop_first());
        let rb = split_lines_seq(b.drop_first());
        if a[0] == '\n' {
            assert(forall|k: int|
                0 <= k < split_lines_seq(a).len() ==> case_variant(
                    #[trigger] split_lines_seq(a)[k],
                    split_lines_seq(b)[k],
                ));
        } else {
            assert(case_variant(seq![a[0]] + ra[0], seq![b[0]] + rb[0]));
            assert(forall|k: int|
                0 <= k < split_lines_seq(a).len() ==> case_variant(
                    #[trigger] split_lines_seq(a)[k],
                    split_lines_seq(b)[k],
                ));
        }
    }
}

/// Law: the comparison is case-insensitive unless `case_sensitive` is set.
/// Two texts that differ only in letter case normalize to the very same line
/// sequence under a case-insensitive comparison.
pub proof fn lemma_normalize_case_insensitive(a: Seq<char>, b: Seq<char>)
    requires
        case_variant(a, b),
    ensures
        spec_normalize_lines(a, false) == spec_normalize_lines(b, false),
{
    lemma_split_case_variant(a, b);
    let sa = split_lines_seq(a);
    let sb = split_lines_seq(b);
    assert forall|k: int| 0 <= k < sa.len() implies map_norm(sa, false)[k] == map_norm(
        sb,
        false,
    )[k] by {
        lemma_norm_line_case_variant(sa[k], sb[k]);
    }
    assert(map_norm(sa, false) =~= map_norm(sb, false));
}

/// Trailing white space on a line does not survive trimming: the trimmed
/// line is the same with or without it.
pub proof fn lemma_trim_append_space(l: Seq<char>, ws: Seq<char>)
    requires
        forall|i: int| 0 <= i < ws.len() ==> crate::text::is_space(#[trigger] ws[i]),
    ensures
        trim_seq(l + ws) == trim_seq(l),
    decreases l.len(),
{
    if l.len() == 0 {
        assert(l + ws =~= ws);
        lemma_trim_all_space(ws);
        lemma_trim_start_all_space(ws);
        assert(trim_seq(l) == trim_end_seq(l));
        assert(l =~= Seq::<char>::empty());
    } else {
        if crate::text::is_space(l[0]) {
            assert((l + ws).drop_first() =~= l.drop_first() + ws);
            lemma_trim_append_space(l.drop_first(), ws);
        } else {
            assert(trim_start_seq(l + ws) == l + ws);
            assert(trim_start_seq(l) == l);
            lemma_trim_end_append_space(l, ws);
        }
    }
}

/// Trimming the end of a text that gained only white space gives the text's
/// own end-trimmed form.
pub proof fn lemma_trim_end_append_space(l: Seq<char>, ws: Seq<char>)
    requires
        forall|i: int| 0 <= i < ws.len() ==> crate::text::is_space(#[trigger] ws[i]),
    ensures
        trim_end_seq(l + ws) == trim_end_seq(l),
    decreases ws.len(),
{
    if ws.len() == 0 {
        assert(l + ws =~= l);
    } else {
        assert((l + ws).last() == ws.last());
        assert((l + ws).drop_last() =~= l + ws.drop_last());
        lemma_trim_end_append_space(l, ws.drop_last());
    }
}

/// An all-space text trims from the start to nothing.
proof fn lemma_trim_start_all_space(ws: Seq<char>)
    requires
        forall|i: int| 0 <= i < ws.len() ==> crate::text::is_space(#[trigger] ws[i]),
    ensures
        trim_start_seq(ws) == Seq::<char>::empty(),
    decreases ws.len(),
{
    if ws.len() > 0 {
        lemma_trim_start_all_space(ws.drop_first());
    } else {
        assert(ws =~= Seq::<char>::empty());
    }
}

/// An all-space text trims to nothing.
proof fn lemma_trim_all_space(ws: Seq<char>)
    requires
        forall|i: int| 0 <= i < ws.len() ==> crate::text::is_space(#[trigger] ws[i]),
    ensures
        trim_seq(ws) == Seq::<char>::empty(),
{
    lemma_trim_start_all_space(ws);
}

/// Law: the comparison is insensitive to trailing white space on a line.
/// A line normalizes the same with or without trailing white space, under
/// either case mode.
pub proof fn lemma_line_trailing_space_ignored(l: Seq<char>, ws: Seq<char>, case_sensitive: bool)
    requires
        forall|i: int| 0 <= i < ws.len() ==> crate::text::is_space(#[trigger] ws[i]),
    ensures
        norm_line_seq(l + ws, case_sensitive) == norm_line_seq(l, case_sensitive),
{
    lemma_trim_append_space(l, ws);
}

} // verus!

verus! {

/// The views of a sequence of string pairs.
pub open spec fn pair_views(ps: Seq<(String, String)>) -> Seq<(Seq<char>, Seq<char>)> {
    ps.map_values(|p: (String, String)| (p.0@, p.1@))
}

/// The mismatching line pairs of a plain diff over the first `i` positions:
/// wherever expected and actual differ (a missing line reading as empty),
/// the pair appears, trimmed at the end for display.
pub open spec fn spec_diff_pairs(e: Seq<Seq<char>>, a: Seq<Seq<char>>, i: int) -> Seq<
    (Seq<char>, Seq<char>),
>
    decreases i,
{
    if i <= 0 {
        Seq::empty()
    } else {
        let prev = spec_diff_pairs(e, a, i - 1);
        let el = if i - 1 < e.len() {
            e[i - 1]
        } else {
            Seq::<char>::empty()
        };
        let al = if i - 1 < a.len() {
            a[i - 1]
        } else {
            Seq::<char>::empty()
        };
        if el != al {
            prev + seq![(trim_end_seq(el), trim_end_seq(al))]
        } else {
            prev
        }
    }
}

/// The number of positions a plain diff looks at: every position either side
/// has, capped at `max_lines`.
pub open spec fn spec_diff_len(e_len: int, a_len: int, max_lines: int) -> int {
    let longer = if e_len >= a_len {
        e_len
    } else {
        a_len
    };
    if longer <= max_lines {
        longer
    } else {
        max_lines
    }
}

/// Collects the differing line pairs of two line lists, for the plain diff
/// display: positions where the lines differ, up to `max_lines` positions,
/// each pair trimmed at the end.
pub fn diff_pairs(expected: &Vec<String>, actual: &Vec<String>, max_lines: usize) -> (r: Vec<
    (String, String),
>)
    ensures
        pair_views(r@) == spec_diff_pairs(
            views_of(expected@),
            views_of(actual@),
            spec_diff_len(expected@.len() as int, actual@.len() as int, max_lines as int),
        ),
{
    let ghost ev = views_of(expected@);
    let ghost av = views_of(actual@);
    let longer = if expected.len() >= actual.len() {
        expected.len()
    } else {
        actual.len()
    };
    let len = if longer <= max_lines {
        longer
    } else {
        max_lines
    };
    let mut out: Vec<(String, String)> = Vec::new();
    proof {
        assert(pair_views(out@) =~= spec_diff_pairs(ev, av, 0));
    }
    let mut i: usize = 0;
    while i < len
        invariant
            i <= len,
            len as int == spec_diff_len(expected@.len() as int, actual@.len() as int, max_lines as int),
            ev == views_of(expected@),
            av == views_of(actual@),
            pair_views(out@) == spec_diff_pairs(ev, av, i as int),
        decreases len - i,
    {
        let ghost out0 = out@;
        let ghost el = if (i as int) < ev.len() {
            ev[i as int]
        } else {
            Seq::<char>::empty()
        };
        let ghost al = if (i as int) < av.len() {
            av[i as int]
        } else {
            Seq::<char>::empty()
        };
        let empty_line = String::new();
        let e = if i < expected.len() {
            &expected[i]
        } else {
            &empty_line
        };
        let a = if i < actual.len() {
            &actual[i]
        } else {
            &empty_line
        };
        proof {
            assert(e@ == el);
            assert(a@ == al);
        }
        if !crate::text::str_eq(e.as_str(), a.as_str()) {
            let etv = chars_of(e.as_str());
            let ett = crate::text::trim_end_chars(&etv);
            let ets = string_from_chars(&ett);
            let atv = chars_of(a.as_str());
            let att = crate::text::trim_end_chars(&atv);
            let ats = string_from_chars(&att);
            let ghost pe = (ets@, ats@);
            out.push((ets, ats));
            proof {
                assert(out@.drop_last() =~= out0);
                assert(pe == (trim_end_seq(el), trim_end_seq(al)));
                let s1 = pair_views(out@);
                let s2 = spec_diff_pairs(ev, av, i + 1);
                assert(s1.len() == s2.len());
                assert forall|k: int| 0 <= k < s1.len() implies s1[k] == s2[k] by {
                    if k < out0.len() {
                        assert(out@[k] == out0[k]);
                        assert(pair_views(out0)[k] == spec_diff_pairs(ev, av, i as int)[k]);
                    } else {
                        assert(out@[k].0@ == pe.0 && out@[k].1@ == pe.1);
                    }
                }
                assert(s1 =~= s2);
            }
        } else {
            proof {
                assert(pair_views(out@) =~= spec_diff_pairs(ev, av, i + 1));
            }
        }
        i = i + 1;
    }
    out
}

} // verus!
