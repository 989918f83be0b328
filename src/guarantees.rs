//! Facts that relate the renderings to each other and to refreshing.

use crate::snapshot::{
    all_prometheus_lines, entries_of, human_lines, human_text, json_pairs, json_separator,
    json_text, key_text, prometheus_lines, prometheus_text, refreshed_from, Metric, MetricView,
    MetricsSnapshot,
};
use crate::text::{decimal, digit, join, line_order, pad2, underscored};
use vstd::prelude::*;
use vstd::relations::sorted_by;

verus! {

proof fn lemma_sorted_empty(lines: Seq<Seq<char>>)
    requires
        lines.len() == 0,
    ensures
        lines.sort_by(line_order()) == Seq::<Seq<char>>::empty(),
{
    broadcast use vstd::seq_lib::group_to_multiset_ensures;

    crate::text::lemma_line_order_total();
    lines.lemma_sort_by_ensures(line_order());
    assert(lines.to_multiset().len() == 0);
    assert(lines.sort_by(line_order()).len() == 0);
    assert(lines.sort_by(line_order()) =~= Seq::<Seq<char>>::empty());
}

/// With no entries, the human and Prometheus renderings are a lone newline
/// and the compact JSON rendering is `{}`.
pub proof fn lemma_empty_renderings(es: Seq<(MetricView, u64)>, label: Option<Seq<char>>)
    requires
        es.len() == 0,
    ensures
        human_text(es, label) == "\n"@,
        prometheus_text(es, label) == "\n"@,
        json_text(es, label, false) == "{}"@,
{
    lemma_sorted_empty(human_lines(es, label));
    lemma_sorted_empty(all_prometheus_lines(es, label));
    lemma_sorted_empty(json_pairs(es, label));
    reveal_strlit("\n");
    reveal_strlit("{");
    reveal_strlit("}");
    reveal_strlit("{}");
    assert(human_text(es, label) =~= "\n"@);
    assert(underscored("\n"@) =~= "\n"@);
    assert(prometheus_text(es, label) =~= "\n"@);
    assert(json_text(es, label, false) =~= "{}"@);
}

/// Each rendering lays its lines (or pairs) out in non-decreasing line
/// order: each is a join of an ordered arrangement of exactly the entries'
/// lines; for Prometheus, `/` is turned into `_` after that join.
pub proof fn lemma_renderings_in_order(es: Seq<(MetricView, u64)>, label: Option<Seq<char>>)
    ensures
        exists|s: Seq<Seq<char>>|
            sorted_by(s, line_order()) && s.to_multiset() == human_lines(es, label).to_multiset()
                && human_text(es, label) == join(s, "\n"@) + "\n"@,
        exists|s: Seq<Seq<char>>|
            sorted_by(s, line_order()) && s.to_multiset() == all_prometheus_lines(
                es,
                label,
            ).to_multiset() && prometheus_text(es, label) == underscored(join(s, "\n"@) + "\n"@),
        forall|pretty: bool|
            exists|s: Seq<Seq<char>>|
                sorted_by(s, line_order()) && s.to_multiset() == json_pairs(es, label).to_multiset()
                    && #[trigger] json_text(es, label, pretty) == if pretty {
                    "{\n  "@ + join(s, json_separator(pretty)) + "\n}"@
                } else {
                    "{"@ + join(s, json_separator(pretty)) + "}"@
                },
{
    crate::text::lemma_line_order_total();
    human_lines(es, label).lemma_sort_by_ensures(line_order());
    all_prometheus_lines(es, label).lemma_sort_by_ensures(line_order());
    json_pairs(es, label).lemma_sort_by_ensures(line_order());
    assert forall|pretty: bool|
        exists|s: Seq<Seq<char>>|
            sorted_by(s, line_order()) && s.to_multiset() == json_pairs(es, label).to_multiset()
                && #[trigger] json_text(es, label, pretty) == if pretty {
                "{\n  "@ + join(s, json_separator(pretty)) + "\n}"@
            } else {
                "{"@ + join(s, json_separator(pretty)) + "}"@
            } by {
        let s = json_pairs(es, label).sort_by(line_order());
        assert(sorted_by(s, line_order()));
    }
}

/// Refreshing twice from the same pull leaves the same entries both times,
/// and the second clock reading is no earlier than the first; it is later
/// whenever the clock advanced between the two.
pub proof fn lemma_refresh_repeatable(
    s0: MetricsSnapshot,
    s1: MetricsSnapshot,
    s2: MetricsSnapshot,
    pulled: Seq<(Metric, u64)>,
    t1: u64,
    t2: u64,
)
    requires
        refreshed_from(s0, s1, pulled, t1),
        refreshed_from(s1, s2, pulled, t2),
    ensures
        s2.entries() == s1.entries(),
        s2.entries() == entries_of(pulled),
        s1.refreshed_at() <= s2.refreshed_at(),
        t1 < t2 ==> s1.refreshed_at() < s2.refreshed_at(),
        s2.label() == s0.label(),
{
}

/// A whitespace character: space, tab, line feed or carriage return.
pub open spec fn is_space(c: char) -> bool {
    c == ' ' || c == '\t' || c == '\n' || c == '\r'
}

/// Holds of the characters that are not whitespace.
pub open spec fn not_space() -> spec_fn(char) -> bool {
    |c: char| !is_space(c)
}

/// `s` with all whitespace taken out.
pub open spec fn without_spaces(s: Seq<char>) -> Seq<char> {
    s.filter(not_space())
}

proof fn lemma_without_spaces_concat(a: Seq<char>, b: Seq<char>)
    ensures
        without_spaces(a + b) == without_spaces(a) + without_spaces(b),
{
    Seq::filter_distributes_over_add(a, b, not_space());
}

proof fn lemma_join_without_spaces(parts: Seq<Seq<char>>)
    ensures
        without_spaces(join(parts, ",\n  "@)) == without_spaces(join(parts, ","@)),
    decreases parts.len(),
{
    if parts.len() > 1 {
        lemma_join_without_spaces(parts.drop_last());
        let a = join(parts.drop_last(), ",\n  "@);
        let b = join(parts.drop_last(), ","@);
        lemma_without_spaces_concat(a + ",\n  "@, parts.last());
        lemma_without_spaces_concat(a, ",\n  "@);
        lemma_without_spaces_concat(b + ","@, parts.last());
        lemma_without_spaces_concat(b, ","@);
        reveal_strlit(",\n  ");
        reveal_strlit(",");
        reveal_with_fuel(Seq::filter, 5);
        assert(",\n  "@.drop_last().drop_last().drop_last() =~= ","@);
        assert(without_spaces(",\n  "@) == without_spaces(","@));
    }
}

/// The pretty and the compact JSON renderings differ in whitespace alone:
/// without it they are the same text.
#[verifier::rlimit(40)]
pub proof fn lemma_json_layouts_agree(es: Seq<(MetricView, u64)>, label: Option<Seq<char>>)
    ensures
        without_spaces(json_text(es, label, true)) == without_spaces(json_text(es, label, false)),
{
    let pairs = json_pairs(es, label).sort_by(line_order());
    let body_pretty = join(pairs, ",\n  "@);
    let body = join(pairs, ","@);
    lemma_join_without_spaces(pairs);
    lemma_without_spaces_concat("{\n  "@ + body_pretty, "\n}"@);
    lemma_without_spaces_concat("{\n  "@, body_pretty);
    lemma_without_spaces_concat("{"@ + body, "}"@);
    lemma_without_spaces_concat("{"@, body);
    reveal_strlit("{\n  ");
    reveal_strlit("\n}");
    reveal_strlit("{");
    reveal_strlit("}");
    reveal_with_fuel(Seq::filter, 5);
    assert("{\n  "@.drop_last().drop_last().drop_last() =~= "{"@);
    assert(without_spaces("{\n  "@) == without_spaces("{"@));
    assert("\n}"@.drop_last() =~= seq!['\n']);
    assert(seq!['\n'].drop_last() =~= Seq::<char>::empty());
    assert("}"@.drop_last() =~= Seq::<char>::empty());
    assert(without_spaces("\n}"@) == without_spaces("}"@));
}

/// Holds of `c` alone.
pub open spec fn is_char(c: char) -> spec_fn(char) -> bool {
    |x: char| x == c
}

/// How many times `c` occurs in `s`.
pub open spec fn count_of(s: Seq<char>, c: char) -> nat {
    s.filter(is_char(c)).len()
}

/// No name, percentile text or count label holds `c`.
pub open spec fn free_of(es: Seq<(MetricView, u64)>, label: Option<Seq<char>>, c: char) -> bool {
    &&& forall|i: int| 0 <= i < es.len() ==> !(#[trigger] es[i]).0.0.contains(c)
    &&& forall|i: int|
        0 <= i < es.len() && (#[trigger] es[i]).0.1 is Some ==> !es[i].0.1->0.contains(c)
    &&& label is Some ==> !label->0.contains(c)
}

proof fn lemma_count_concat(a: Seq<char>, b: Seq<char>, c: char)
    ensures
        count_of(a + b, c) == count_of(a, c) + count_of(b, c),
{
    Seq::filter_distributes_over_add(a, b, is_char(c));
}

proof fn lemma_count_absent(s: Seq<char>, c: char)
    requires
        !s.contains(c),
    ensures
        count_of(s, c) == 0,
{
    if s.filter(is_char(c)).len() > 0 {
        s.lemma_filter_pred(is_char(c), 0);
        s.lemma_filter_contains_rev(is_char(c), s.filter(is_char(c))[0]);
    }
}

proof fn lemma_concat_lacks(a: Seq<char>, b: Seq<char>, c: char)
    requires
        !a.contains(c),
        !b.contains(c),
    ensures
        !(a + b).contains(c),
{
    assert forall|i: int| 0 <= i < (a + b).len() implies (a + b)[i] != c by {
        if i < a.len() {
            assert(a[i] == (a + b)[i]);
        } else {
            assert(b[i - a.len()] == (a + b)[i]);
        }
    }
}

proof fn lemma_decimal_digits(v: nat)
    ensures
        forall|i: int| 0 <= i < decimal(v).len() ==> '0' <= #[trigger] decimal(v)[i] <= '9',
    decreases v,
{
    let d = decimal(v);
    if v >= 10 {
        lemma_decimal_digits(v / 10);
        let pre = decimal(v / 10);
        assert forall|i: int| 0 <= i < d.len() implies '0' <= #[trigger] d[i] <= '9' by {
            if i < pre.len() {
                assert(d[i] == pre[i]);
            } else {
                assert(d[i] == digit((v % 10) as int));
            }
        }
    } else {
        assert(d[0] == digit(v as int));
    }
}

proof fn lemma_key_lacks(m: MetricView, label: Option<Seq<char>>, c: char)
    requires
        c != '/',
        c != 'p',
        c != '0',
        !m.0.contains(c),
        m.1 is Some ==> !m.1->0.contains(c),
        label is Some ==> !label->0.contains(c),
    ensures
        !key_text(m, label).contains(c),
{
    reveal_strlit("/");
    reveal_strlit("/p");
    assert(!"/"@.contains(c));
    assert(!"/p"@.contains(c));
    match m.1 {
        None => match label {
            Some(l) => {
                lemma_concat_lacks(m.0, "/"@, c);
                lemma_concat_lacks(m.0 + "/"@, l, c);
            },
            None => {},
        },
        Some(p) => {
            assert(!pad2(p).contains(c)) by {
                if p.len() == 1 {
                    lemma_concat_lacks(seq!['0'], p, c);
                }
            }
            lemma_concat_lacks(m.0, "/p"@, c);
            lemma_concat_lacks(m.0 + "/p"@, pad2(p), c);
        },
    }
}

proof fn lemma_count_join(parts: Seq<Seq<char>>, sep: Seq<char>, c: char)
    requires
        parts.len() > 0,
        forall|i: int| 0 <= i < parts.len() ==> !(#[trigger] parts[i]).contains(c),
        count_of(sep, c) == 1,
    ensures
        count_of(join(parts, sep), c) + 1 == parts.len(),
    decreases parts.len(),
{
    if parts.len() == 1 {
        lemma_count_absent(parts[0], c);
    } else {
        let rest = parts.drop_last();
        assert forall|i: int| 0 <= i < rest.len() implies !(#[trigger] rest[i]).contains(c) by {
            assert(rest[i] == parts[i]);
        }
        lemma_count_join(rest, sep, c);
        lemma_count_concat(join(rest, sep) + sep, parts.last(), c);
        lemma_count_concat(join(rest, sep), sep, c);
        lemma_count_absent(parts.last(), c);
    }
}

/// The arranged lines hold exactly the lines given, so each lacks what all
/// of those lack, and there are as many.
proof fn lemma_sorted_lacks(lines: Seq<Seq<char>>, c: char)
    requires
        forall|i: int| 0 <= i < lines.len() ==> !(#[trigger] lines[i]).contains(c),
    ensures
        lines.sort_by(line_order()).len() == lines.len(),
        forall|i: int|
            0 <= i < lines.sort_by(line_order()).len() ==> !(#[trigger] lines.sort_by(
                line_order(),
            )[i]).contains(c),
{
    broadcast use vstd::seq_lib::group_to_multiset_ensures;

    crate::text::lemma_line_order_total();
    lines.lemma_sort_by_ensures(line_order());
    let sorted = lines.sort_by(line_order());
    assert(sorted.to_multiset().len() == lines.to_multiset().len());
    assert forall|i: int| 0 <= i < sorted.len() implies !(#[trigger] sorted[i]).contains(c) by {
        assert(sorted.contains(sorted[i]));
        assert(lines.contains(sorted[i]));
    }
}

#[verifier::rlimit(40)]
proof fn lemma_human_newlines(es: Seq<(MetricView, u64)>, label: Option<Seq<char>>)
    requires
        es.len() > 0,
        free_of(es, label, '\n'),
    ensures
        count_of(human_text(es, label), '\n') == es.len(),
{
    reveal_strlit("\n");
    reveal_strlit(": ");
    reveal_with_fuel(Seq::filter, 2);
    let lines = human_lines(es, label);
    assert forall|i: int| 0 <= i < lines.len() implies !(#[trigger] lines[i]).contains('\n') by {
        let e = es[i];
        lemma_key_lacks(e.0, label, '\n');
        lemma_decimal_digits(e.1 as nat);
        lemma_concat_lacks(key_text(e.0, label), ": "@, '\n');
        lemma_concat_lacks(key_text(e.0, label) + ": "@, decimal(e.1 as nat), '\n');
    }
    lemma_sorted_lacks(lines, '\n');
    let sorted = lines.sort_by(line_order());
    assert("\n"@.drop_last() =~= Seq::<char>::empty());
    lemma_count_join(sorted, "\n"@, '\n');
    lemma_count_concat(join(sorted, "\n"@), "\n"@, '\n');
}

proof fn lemma_json_pairs_lack_comma(es: Seq<(MetricView, u64)>, label: Option<Seq<char>>)
    requires
        free_of(es, label, ','),
    ensures
        forall|i: int|
            0 <= i < json_pairs(es, label).len() ==> !(#[trigger] json_pairs(es, label)[i]).contains(
                ',',
            ),
{
    reveal_strlit("\"");
    reveal_strlit("\": ");
    let pairs = json_pairs(es, label);
    assert forall|i: int| 0 <= i < pairs.len() implies !(#[trigger] pairs[i]).contains(',') by {
        let e = es[i];
        lemma_key_lacks(e.0, label, ',');
        lemma_decimal_digits(e.1 as nat);
        assert(!"\""@.contains(','));
        assert(!"\": "@.contains(','));
        lemma_concat_lacks("\""@, key_text(e.0, label), ',');
        lemma_concat_lacks("\""@ + key_text(e.0, label), "\": "@, ',');
        lemma_concat_lacks("\""@ + key_text(e.0, label) + "\": "@, decimal(e.1 as nat), ',');
    }
}

#[verifier::rlimit(40)]
proof fn lemma_json_commas(es: Seq<(MetricView, u64)>, label: Option<Seq<char>>, pretty: bool)
    requires
        es.len() > 0,
        free_of(es, label, ','),
    ensures
        count_of(json_text(es, label, pretty), ',') + 1 == es.len(),
{
    let pairs = json_pairs(es, label);
    lemma_json_pairs_lack_comma(es, label);
    lemma_sorted_lacks(pairs, ',');
    let sorted = pairs.sort_by(line_order());
    reveal_strlit("{");
    reveal_strlit("}");
    reveal_strlit("{\n  ");
    reveal_strlit("\n}");
    reveal_strlit(",");
    reveal_strlit(",\n  ");
    reveal_with_fuel(Seq::filter, 5);
    if pretty {
        assert(",\n  "@.drop_last().drop_last().drop_last() =~= ","@);
        assert(","@.drop_last() =~= Seq::<char>::empty());
        lemma_count_join(sorted, ",\n  "@, ',');
        let body = join(sorted, ",\n  "@);
        lemma_count_concat("{\n  "@ + body, "\n}"@, ',');
        lemma_count_concat("{\n  "@, body, ',');
        assert("{\n  "@.drop_last().drop_last().drop_last() =~= "{"@);
        assert("{"@.drop_last() =~= Seq::<char>::empty());
        assert("\n}"@.drop_last().drop_last() =~= Seq::<char>::empty());
    } else {
        assert(","@.drop_last() =~= Seq::<char>::empty());
        lemma_count_join(sorted, ","@, ',');
        let body = join(sorted, ","@);
        lemma_count_concat("{"@ + body, "}"@, ',');
        lemma_count_concat("{"@, body, ',');
        assert("{"@.drop_last() =~= Seq::<char>::empty());
        assert("}"@.drop_last() =~= Seq::<char>::empty());
    }
}

/// A non-empty snapshot's human rendering has one newline-ended line per
/// entry, and its JSON renderings one comma fewer than entries, provided the
/// names, percentile texts and count label hold no newline (or no comma).
pub proof fn lemma_entry_counts(es: Seq<(MetricView, u64)>, label: Option<Seq<char>>)
    requires
        es.len() > 0,
    ensures
        free_of(es, label, '\n') ==> count_of(human_text(es, label), '\n') == es.len(),
        free_of(es, label, ',') ==> count_of(json_text(es, label, false), ',') + 1 == es.len(),
        free_of(es, label, ',') ==> count_of(json_text(es, label, true), ',') + 1 == es.len(),
{
    if free_of(es, label, '\n') {
        lemma_human_newlines(es, label);
    }
    if free_of(es, label, ',') {
        lemma_json_commas(es, label, false);
        lemma_json_commas(es, label, true);
    }
}

proof fn lemma_underscored_unchanged(s: Seq<char>)
    requires
        !s.contains('/'),
    ensures
        underscored(s) == s,
{
    assert forall|i: int| 0 <= i < s.len() implies s[i] != '/' by {}
    assert(underscored(s) =~= s);
}

proof fn lemma_join_lacks(parts: Seq<Seq<char>>, sep: Seq<char>, c: char)
    requires
        forall|i: int| 0 <= i < parts.len() ==> !(#[trigger] parts[i]).contains(c),
        !sep.contains(c),
    ensures
        !join(parts, sep).contains(c),
    decreases parts.len(),
{
    if parts.len() == 1 {
        assert(!parts[0].contains(c));
    } else if parts.len() > 1 {
        let rest = parts.drop_last();
        assert forall|i: int| 0 <= i < rest.len() implies !(#[trigger] rest[i]).contains(c) by {
            assert(rest[i] == parts[i]);
        }
        lemma_join_lacks(rest, sep, c);
        lemma_concat_lacks(join(rest, sep), sep, c);
        assert(!parts[parts.len() - 1].contains(c));
        lemma_concat_lacks(join(rest, sep) + sep, parts.last(), c);
    }
}

#[verifier::rlimit(40)]
proof fn lemma_prometheus_lines_lack_slash(es: Seq<(MetricView, u64)>)
    requires
        free_of(es, None, '/'),
    ensures
        forall|i: int|
            0 <= i < all_prometheus_lines(es, None).len() ==> !(#[trigger] all_prometheus_lines(
                es,
                None,
            )[i]).contains('/'),
    decreases es.len(),
{
    if es.len() > 0 {
        let rest = es.drop_last();
        assert(free_of(rest, None, '/')) by {
            assert forall|i: int| 0 <= i < rest.len() implies rest[i] == es[i] by {}
        }
        lemma_prometheus_lines_lack_slash(rest);
        let e = es.last();
        assert(e == es[es.len() - 1]);
        reveal_strlit("# TYPE ");
        reveal_strlit(" gauge");
        reveal_strlit(" ");
        reveal_strlit("{percentile=\"");
        reveal_strlit("\"} ");
        assert(!"# TYPE "@.contains('/'));
        assert(!" gauge"@.contains('/'));
        assert(!" "@.contains('/'));
        assert(!"{percentile=\""@.contains('/'));
        assert(!"\"} "@.contains('/'));
        lemma_decimal_digits(e.1 as nat);
        let v = decimal(e.1 as nat);
        let name = key_text(e.0, None);
        let two = prometheus_lines(e, None);
        match e.0.1 {
            None => {
                assert(name == e.0.0);
                lemma_concat_lacks("# TYPE "@, name, '/');
                lemma_concat_lacks("# TYPE "@ + name, " gauge"@, '/');
                lemma_concat_lacks(name, " "@, '/');
                lemma_concat_lacks(name + " "@, v, '/');
            },
            Some(p) => {
                let n = e.0.0;
                assert(!pad2(p).contains('/')) by {
                    if p.len() == 1 {
                        lemma_concat_lacks(seq!['0'], p, '/');
                    }
                }
                lemma_concat_lacks("# TYPE "@, n, '/');
                lemma_concat_lacks("# TYPE "@ + n, " gauge"@, '/');
                lemma_concat_lacks(n, "{percentile=\""@, '/');
                lemma_concat_lacks(n + "{percentile=\""@, pad2(p), '/');
                lemma_concat_lacks(n + "{percentile=\""@ + pad2(p), "\"} "@, '/');
                lemma_concat_lacks(n + "{percentile=\""@ + pad2(p) + "\"} "@, v, '/');
            },
        }
        let all = all_prometheus_lines(es, None);
        let before = all_prometheus_lines(rest, None);
        assert forall|i: int| 0 <= i < all.len() implies !(#[trigger] all[i]).contains('/') by {
            if i < before.len() {
                assert(all[i] == before[i]);
            } else {
                assert(all[i] == two[i - before.len()]);
            }
        }
    }
}

/// Without a count label, and with no `/` in any name or percentile text,
/// the Prometheus rendering itself is its lines in line order, each ended by
/// a newline.
pub proof fn lemma_prometheus_in_order_without_slashes(es: Seq<(MetricView, u64)>)
    requires
        free_of(es, None, '/'),
    ensures
        exists|s: Seq<Seq<char>>|
            sorted_by(s, line_order()) && s.to_multiset() == all_prometheus_lines(
                es,
                None,
            ).to_multiset() && prometheus_text(es, None) == join(s, "\n"@) + "\n"@,
{
    let lines = all_prometheus_lines(es, None);
    lemma_prometheus_lines_lack_slash(es);
    lemma_sorted_lacks(lines, '/');
    crate::text::lemma_line_order_total();
    lines.lemma_sort_by_ensures(line_order());
    let s = lines.sort_by(line_order());
    reveal_strlit("\n");
    assert(!"\n"@.contains('/'));
    lemma_join_lacks(s, "\n"@, '/');
    lemma_concat_lacks(join(s, "\n"@), "\n"@, '/');
    lemma_underscored_unchanged(join(s, "\n"@) + "\n"@);
}

} // verus!
