//! The snapshot of metric readings and its three renderings.

use crate::text::{
    chars_of, decimal, join, join_chars, line_order, pad2, push_all, push_decimal, push_padded2,
    seqs_of, sort_lines, string_of_chars, underscore_slashes, underscored,
};
use vstd::prelude::*;

verus! {

/// How a metric's value is presented.
pub enum Output {
    /// A plain instantaneous value.
    Reading,
    /// The value at a percentile of a distribution; the percentile is held in
    /// its natural text form (`"99"`, `"5"`, `"99.9"`).
    Percentile(String),
}

/// The identity of one metric: its display name and how it is presented.
pub struct Metric {
    pub name: String,
    pub output: Output,
}

/// A metric identity as values: the name, and the percentile text for a
/// percentile (`None` for a reading).
pub type MetricView = (Seq<char>, Option<Seq<char>>);

impl View for Metric {
    type V = MetricView;

    open spec fn view(&self) -> MetricView {
        (
            self.name@,
            match self.output {
                Output::Reading => None,
                Output::Percentile(p) => Some(p@),
            },
        )
    }
}

/// The entries of a pull from the registry, as values.
pub open spec fn entries_of(pulled: Seq<(Metric, u64)>) -> Seq<(MetricView, u64)> {
    pulled.map_values(|e: (Metric, u64)| (e.0@, e.1))
}

/// The name under which an entry is shown in the human and JSON renderings:
/// a reading's name, joined to the count label by `/` when there is one; a
/// percentile's name followed by `/p` and the percentile padded to two places.
pub open spec fn key_text(m: MetricView, label: Option<Seq<char>>) -> Seq<char> {
    match m.1 {
        None => match label {
            Some(l) => m.0 + "/"@ + l,
            None => m.0,
        },
        Some(p) => m.0 + "/p"@ + pad2(p),
    }
}

/// One line of the human rendering: `<key>: <value>`.
pub open spec fn human_line(e: (MetricView, u64), label: Option<Seq<char>>) -> Seq<char> {
    key_text(e.0, label) + ": "@ + decimal(e.1 as nat)
}

/// One pair of the JSON rendering: `"<key>": <value>`.
pub open spec fn json_pair(e: (MetricView, u64), label: Option<Seq<char>>) -> Seq<char> {
    "\""@ + key_text(e.0, label) + "\": "@ + decimal(e.1 as nat)
}

/// The two lines of the Prometheus rendering for one entry, before `/` is
/// turned into `_`: a `# TYPE` line and a value line.
pub open spec fn prometheus_lines(e: (MetricView, u64), label: Option<Seq<char>>) -> Seq<
    Seq<char>,
> {
    match e.0.1 {
        None => {
            let name = key_text(e.0, label);
            seq!["# TYPE "@ + name + " gauge"@, name + " "@ + decimal(e.1 as nat)]
        },
        Some(p) => seq![
            "# TYPE "@ + e.0.0 + " gauge"@,
            e.0.0 + "{percentile=\""@ + pad2(p) + "\"} "@ + decimal(e.1 as nat),
        ],
    }
}

/// The human lines of all entries, in the order of the entries.
pub open spec fn human_lines(es: Seq<(MetricView, u64)>, label: Option<Seq<char>>) -> Seq<
    Seq<char>,
> {
    es.map_values(|e: (MetricView, u64)| human_line(e, label))
}

/// The JSON pairs of all entries, in the order of the entries.
pub open spec fn json_pairs(es: Seq<(MetricView, u64)>, label: Option<Seq<char>>) -> Seq<
    Seq<char>,
> {
    es.map_values(|e: (MetricView, u64)| json_pair(e, label))
}

/// The Prometheus lines of all entries, two for each, in the order of the entries.
pub open spec fn all_prometheus_lines(es: Seq<(MetricView, u64)>, label: Option<Seq<char>>) -> Seq<
    Seq<char>,
>
    decreases es.len(),
{
    if es.len() == 0 {
        Seq::empty()
    } else {
        all_prometheus_lines(es.drop_last(), label) + prometheus_lines(es.last(), label)
    }
}

/// The human rendering: the lines in line order, each ended by a newline.
pub open spec fn human_text(es: Seq<(MetricView, u64)>, label: Option<Seq<char>>) -> Seq<char> {
    join(human_lines(es, label).sort_by(line_order()), "\n"@) + "\n"@
}

/// The Prometheus rendering: the lines in line order, each ended by a
/// newline, with every `/` of the whole text then turned into `_`.
pub open spec fn prometheus_text(es: Seq<(MetricView, u64)>, label: Option<Seq<char>>) -> Seq<
    char,
> {
    underscored(join(all_prometheus_lines(es, label).sort_by(line_order()), "\n"@) + "\n"@)
}

/// The separator between JSON pairs.
pub open spec fn json_separator(pretty: bool) -> Seq<char> {
    if pretty {
        ",\n  "@
    } else {
        ","@
    }
}

/// The JSON rendering: one object whose pairs stand in line order.
pub open spec fn json_text(es: Seq<(MetricView, u64)>, label: Option<Seq<char>>, pretty: bool) -> Seq<
    char,
> {
    let body = join(json_pairs(es, label).sort_by(line_order()), json_separator(pretty));
    if pretty {
        "{\n  "@ + body + "\n}"@
    } else {
        "{"@ + body + "}"@
    }
}

/// `after` is `before` refreshed from `pulled` at clock reading `now`: it holds
/// exactly the pulled entries, the new reading, and the same count label.
pub open spec fn refreshed_from(
    before: MetricsSnapshot,
    after: MetricsSnapshot,
    pulled: Seq<(Metric, u64)>,
    now: u64,
) -> bool {
    &&& before.refreshed_at() <= now
    &&& after.entries() == entries_of(pulled)
    &&& after.refreshed_at() == now
    &&& after.label() == before.label()
}

/// A point-in-time copy of metric values, with the time of the copy and an
/// optional label that qualifies what readings count.
pub struct MetricsSnapshot {
    snapshot: Vec<(Metric, u64)>,
    refreshed: u64,
    count_label: Option<String>,
}

impl MetricsSnapshot {
    /// The entries of the copy.
    pub closed spec fn entries(&self) -> Seq<(MetricView, u64)> {
        entries_of(self.snapshot@)
    }

    /// The clock reading at which the copy was taken.
    pub closed spec fn refreshed_at(&self) -> u64 {
        self.refreshed
    }

    /// The count label, if any.
    pub closed spec fn label(&self) -> Option<Seq<char>> {
        match self.count_label {
            Some(l) => Some(l@),
            None => None,
        }
    }

    /// An empty snapshot taken at clock reading `now`, with the given count label.
    pub fn new(count_label: Option<&str>, now: u64) -> (r: Self)
        ensures
            r.entries() == Seq::<(MetricView, u64)>::empty(),
            r.refreshed_at() == now,
            r.label() == (match count_label {
                Some(l) => Some(l@),
                None => None,
            }),
    {
        let count_label = match count_label {
            Some(l) => Some(l.to_owned()),
            None => None,
        };
        let r = MetricsSnapshot { snapshot: Vec::new(), refreshed: now, count_label };
        assert(r.entries() =~= Seq::<(MetricView, u64)>::empty());
        r
    }

    /// Replaces the copy with `pulled`, a pull of every metric the registry
    /// knows with its value, taken at clock reading `now`.
    pub fn refresh(&mut self, pulled: Vec<(Metric, u64)>, now: u64)
        requires
            old(self).refreshed_at() <= now,
        ensures
            refreshed_from(*old(self), *final(self), pulled@, now),
    {
        self.snapshot = pulled;
        self.refreshed = now;
    }

    /// The characters of the name under which entry `m` is shown.
    fn key_chars(&self, m: &Metric) -> (r: Vec<char>)
        ensures
            r@ == key_text(m@, self.label()),
    {
        let mut r = chars_of(m.name.as_str());
        match &m.output {
            Output::Reading => {
                match &self.count_label {
                    Some(l) => {
                        push_all(&mut r, &chars_of("/"));
                        push_all(&mut r, &chars_of(l.as_str()));
                    },
                    None => {},
                }
            },
            Output::Percentile(p) => {
                push_all(&mut r, &chars_of("/p"));
                push_padded2(&mut r, &chars_of(p.as_str()));
            },
        }
        r
    }

    /// The Prometheus exposition text: for each reading a `# TYPE <name> gauge`
    /// line and a `<name> <value>` line, for each percentile a `# TYPE` line
    /// and a `<name>{percentile="<p>"} <value>` line; all lines in line order,
    /// each ended by a newline, and then every `/` turned into `_`.
#[verifier::rlimit(40)]
    pub fn prometheus(&self) -> (r: String)
        ensures
            r@ == prometheus_text(self.entries(), self.label()),
    {
        let mut lines: Vec<Vec<char>> = Vec::new();
        let mut i: usize = 0;
        while i < self.snapshot.len()
            invariant
                i <= self.snapshot.len(),
                seqs_of(lines@) == all_prometheus_lines(self.entries().take(i as int), self.label()),
            decreases self.snapshot.len() - i,
        {
            let m = &self.snapshot[i].0;
            let value = self.snapshot[i].1;
            let ghost before = lines@;
            match &m.output {
                Output::Reading => {
                    let name = self.key_chars(m);
                    let mut kind = chars_of("# TYPE ");
                    push_all(&mut kind, &name);
                    push_all(&mut kind, &chars_of(" gauge"));
                    let mut line = name;
                    push_all(&mut line, &chars_of(" "));
                    push_decimal(&mut line, value);
                    lines.push(kind);
                    lines.push(line);
                },
                Output::Percentile(p) => {
                    let name = chars_of(m.name.as_str());
                    let mut kind = chars_of("# TYPE ");
                    push_all(&mut kind, &name);
                    push_all(&mut kind, &chars_of(" gauge"));
                    let mut line = name;
                    push_all(&mut line, &chars_of("{percentile=\""));
                    push_padded2(&mut line, &chars_of(p.as_str()));
                    push_all(&mut line, &chars_of("\"} "));
                    push_decimal(&mut line, value);
                    lines.push(kind);
                    lines.push(line);
                },
            }
            i = i + 1;
            proof {
                let es = self.entries().take(i as int);
                assert(es.drop_last() =~= self.entries().take(i - 1));
                assert(seqs_of(lines@) =~= seqs_of(before) + prometheus_lines(
                    es.last(),
                    self.label(),
                ));
            }
        }
        assert(self.entries().take(i as int) =~= self.entries());
        let sorted = sort_lines(lines);
        let mut out = join_chars(&sorted, &chars_of("\n"));
        push_all(&mut out, &chars_of("\n"));
        underscore_slashes(&mut out);
        string_of_chars(out)
    }

    /// The human-readable text: one `<key>: <value>` line for each entry, in
    /// line order, each ended by a newline.
    pub fn human(&self) -> (r: String)
        ensures
            r@ == human_text(self.entries(), self.label()),
    {
        let mut lines: Vec<Vec<char>> = Vec::new();
        let mut i: usize = 0;
        while i < self.snapshot.len()
            invariant
                i <= self.snapshot.len(),
                seqs_of(lines@) == human_lines(self.entries().take(i as int), self.label()),
            decreases self.snapshot.len() - i,
        {
            let ghost before = lines@;
            let mut line = self.key_chars(&self.snapshot[i].0);
            push_all(&mut line, &chars_of(": "));
            push_decimal(&mut line, self.snapshot[i].1);
            lines.push(line);
            i = i + 1;
            proof {
                let es = self.entries().take(i as int);
                assert(es.drop_last() =~= self.entries().take(i - 1));
                assert(seqs_of(lines@) =~= seqs_of(before).push(human_line(es.last(), self.label())));
                assert(human_lines(es, self.label()) =~= human_lines(es.drop_last(), self.label()).push(
                    human_line(es.last(), self.label()),
                ));
            }
        }
        assert(self.entries().take(i as int) =~= self.entries());
        let sorted = sort_lines(lines);
        let mut out = join_chars(&sorted, &chars_of("\n"));
        push_all(&mut out, &chars_of("\n"));
        string_of_chars(out)
    }

    /// The JSON text: one object with a `"<key>": <value>` pair for each
    /// entry, in line order; `pretty` puts each pair on a line of its own,
    /// indented by two spaces.
    pub fn json(&self, pretty: bool) -> (r: String)
        ensures
            r@ == json_text(self.entries(), self.label(), pretty),
    {
        let mut pairs: Vec<Vec<char>> = Vec::new();
        let mut i: usize = 0;
        while i < self.snapshot.len()
            invariant
                i <= self.snapshot.len(),
                seqs_of(pairs@) == json_pairs(self.entries().take(i as int), self.label()),
            decreases self.snapshot.len() - i,
        {
            let ghost before = pairs@;
            let mut pair = chars_of("\"");
            push_all(&mut pair, &self.key_chars(&self.snapshot[i].0));
            push_all(&mut pair, &chars_of("\": "));
            push_decimal(&mut pair, self.snapshot[i].1);
            pairs.push(pair);
            i = i + 1;
            proof {
                let es = self.entries().take(i as int);
                assert(es.drop_last() =~= self.entries().take(i - 1));
                assert(seqs_of(pairs@) =~= seqs_of(before).push(json_pair(es.last(), self.label())));
                assert(json_pairs(es, self.label()) =~= json_pairs(es.drop_last(), self.label()).push(
                    json_pair(es.last(), self.label()),
                ));
            }
        }
        assert(self.entries().take(i as int) =~= self.entries());
        let sorted = sort_lines(pairs);
        let mut out = if pretty {
            chars_of("{\n  ")
        } else {
            chars_of("{")
        };
        let sep = if pretty {
            chars_of(",\n  ")
        } else {
            chars_of(",")
        };
        push_all(&mut out, &join_chars(&sorted, &sep));
        if pretty {
            push_all(&mut out, &chars_of("\n}"));
        } else {
            push_all(&mut out, &chars_of("}"));
        }
        string_of_chars(out)
    }
}

} // verus!
