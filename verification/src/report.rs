//! The text of the analysis report.

use vstd::prelude::*;
use crate::models::{severity_label, Anomaly, AnomalyType};
use crate::session::{datetime_text, utc_datetime_text};
use crate::statistics::Statistics;
use crate::text::{decimal, push_decimal, push_str, string_of};
use crate::time::Timestamp;

verus! {

/// How many of the latest anomalies the report lists.
pub const REPORT_ANOMALIES: usize = 20;

/// The label of an anomaly kind in the report.
pub open spec fn kind_label(t: AnomalyType) -> Seq<char> {
    match t {
        AnomalyType::ErrorSpike => "ERROR_SPIKE"@,
        AnomalyType::RepeatedEvent => "REPEATED"@,
        AnomalyType::VolumeSpike => "VOLUME"@,
        AnomalyType::RuleViolation => "RULE"@,
    }
}

/// An instant as `YYYY-MM-DD HH:MM:SS` (UTC), empty when it cannot be represented.
pub open spec fn instant_text(t: Timestamp) -> Seq<char> {
    match utc_datetime_text(t.secs, t.nanos) {
        Some(s) => s,
        None => Seq::empty(),
    }
}

/// The report line of an anomaly: `[time] [SEVERITY] LABEL: description`.
pub open spec fn anomaly_line(a: Anomaly) -> Seq<char> {
    "["@ + instant_text(a.detected_at) + "] ["@ + severity_label(a.severity) + "] "@ + kind_label(a.anomaly_type)
        + ": "@ + a.description@ + "\n"@
}

/// The lines of the last `count` anomalies, newest first.
pub open spec fn recent_lines(anomalies: Seq<Anomaly>, count: nat) -> Seq<char>
    decreases count,
{
    if count == 0 {
        Seq::empty()
    } else {
        recent_lines(anomalies, (count - 1) as nat) + anomaly_line(anomalies[anomalies.len() - count])
    }
}

/// The report block of one file: its totals and the error rate text `rate`
/// (a percentage with two decimals), then an empty line.
pub open spec fn file_block(path: Seq<char>, s: Statistics, rate: Seq<char>) -> Seq<char> {
    "File: "@ + path + "\n"@
        + "  Total: "@ + decimal(s.total_entries as nat) + "\n"@
        + "  Errors: "@ + decimal(s.level_counts.error as nat) + "\n"@
        + "  Warnings: "@ + decimal(s.level_counts.warn as nat) + "\n"@
        + "  Error rate: "@ + rate + "%\n"@ + "\n"@
}

/// The blocks of the first `count` files.
pub open spec fn file_blocks(stats: Seq<(String, Statistics)>, rates: Seq<String>, count: nat) -> Seq<char>
    decreases count,
{
    if count == 0 {
        Seq::empty()
    } else {
        file_blocks(stats, rates, (count - 1) as nat)
            + file_block(stats[count - 1].0@, stats[count - 1].1, rates[count - 1]@)
    }
}

/// The report: a heading with the time it was made (`generated`) and the
/// session, a summary of the entries processed and the anomalies, a block for
/// each file with its error rate text, and the last twenty anomalies (or all,
/// if fewer), newest first.
pub open spec fn report_spec(
    session_id: Seq<char>,
    generated: Seq<char>,
    processed: nat,
    stats: Seq<(String, Statistics)>,
    rates: Seq<String>,
    anomalies: Seq<Anomaly>,
) -> Seq<char> {
    "Log Analysis Report\n"@ + "==================\n"@ + "Generated: "@ + generated + "\n"@
        + "Session: "@ + session_id + "\n"@ + "\n"@
        + "Summary\n"@ + "-------\n"@
        + "Total processed: "@ + decimal(processed) + "\n"@
        + "Total anomalies: "@ + decimal(anomalies.len()) + "\n"@ + "\n"@
        + "Statistics by File\n"@ + "------------------\n"@
        + file_blocks(stats, rates, stats.len())
        + "Recent Anomalies\n"@ + "----------------\n"@
        + recent_lines(anomalies, if anomalies.len() < 20 { anomalies.len() } else { 20 })
}

fn push_label(text: &mut Vec<char>, t: &AnomalyType)
    ensures
        final(text)@ == old(text)@ + kind_label(*t),
{
    match t {
        AnomalyType::ErrorSpike => push_str(text, "ERROR_SPIKE"),
        AnomalyType::RepeatedEvent => push_str(text, "REPEATED"),
        AnomalyType::VolumeSpike => push_str(text, "VOLUME"),
        AnomalyType::RuleViolation => push_str(text, "RULE"),
    }
}

fn push_anomaly_line(text: &mut Vec<char>, a: &Anomaly)
    ensures
        final(text)@ == old(text)@ + anomaly_line(*a),
{
    let time = match datetime_text(&a.detected_at) {
        Some(t) => t,
        None => String::new(),
    };
    let severity = a.severity.to_string();
    push_str(text, "[");
    push_str(text, time.as_str());
    push_str(text, "] [");
    push_str(text, severity.as_str());
    push_str(text, "] ");
    push_label(text, &a.anomaly_type);
    push_str(text, ": ");
    push_str(text, a.description.as_str());
    push_str(text, "\n");
    assert(time@ == instant_text(a.detected_at));
    assert(final(text)@ =~= old(text)@ + anomaly_line(*a));
}

fn push_file_block(text: &mut Vec<char>, path: &str, s: &Statistics, rate: &str)
    ensures
        final(text)@ == old(text)@ + file_block(path@, *s, rate@),
{
    push_str(text, "File: ");
    push_str(text, path);
    push_str(text, "\n");
    push_str(text, "  Total: ");
    push_decimal(text, s.total_entries);
    push_str(text, "\n");
    push_str(text, "  Errors: ");
    push_decimal(text, s.level_counts.error);
    push_str(text, "\n");
    push_str(text, "  Warnings: ");
    push_decimal(text, s.level_counts.warn);
    push_str(text, "\n");
    push_str(text, "  Error rate: ");
    push_str(text, rate);
    push_str(text, "%\n");
    push_str(text, "\n");
    assert(final(text)@ =~= old(text)@ + file_block(path@, *s, rate@));
}

/// The text of the analysis report (see `report_spec`): `generated` is the time
/// the report is made, `processed` the number of entries processed, `stats` the
/// statistics by file with `rates` the error rate text of each, and `anomalies`
/// those received, oldest first.
pub fn report_text(
    session_id: &str,
    generated: &str,
    processed: u64,
    stats: &Vec<(String, Statistics)>,
    rates: &Vec<String>,
    anomalies: &Vec<Anomaly>,
) -> (s: String)
    requires
        rates@.len() == stats@.len(),
    ensures
        s@ == report_spec(session_id@, generated@, processed as nat, stats@, rates@, anomalies@),
{
    let mut text: Vec<char> = Vec::new();
    push_str(&mut text, "Log Analysis Report\n");
    push_str(&mut text, "==================\n");
    push_str(&mut text, "Generated: ");
    push_str(&mut text, generated);
    push_str(&mut text, "\n");
    push_str(&mut text, "Session: ");
    push_str(&mut text, session_id);
    push_str(&mut text, "\n");
    push_str(&mut text, "\n");
    push_str(&mut text, "Summary\n");
    push_str(&mut text, "-------\n");
    push_str(&mut text, "Total processed: ");
    push_decimal(&mut text, processed);
    push_str(&mut text, "\n");
    push_str(&mut text, "Total anomalies: ");
    push_decimal(&mut text, anomalies.len() as u64);
    push_str(&mut text, "\n");
    push_str(&mut text, "\n");
    push_str(&mut text, "Statistics by File\n");
    push_str(&mut text, "------------------\n");
    let ghost head = text@;
    let mut i: usize = 0;
    assert(text@ =~= head + file_blocks(stats@, rates@, 0));
    while i < stats.len()
        invariant
            i <= stats@.len(),
            rates@.len() == stats@.len(),
            text@ == head + file_blocks(stats@, rates@, i as nat),
        decreases stats@.len() - i,
    {
        let ghost before = text@;
        push_file_block(&mut text, stats[i].0.as_str(), &stats[i].1, rates[i].as_str());
        assert(text@ =~= head + file_blocks(stats@, rates@, (i + 1) as nat));
        i = i + 1;
    }
    push_str(&mut text, "Recent Anomalies\n");
    push_str(&mut text, "----------------\n");
    let ghost middle = text@;
    let n = anomalies.len();
    let count = if n < REPORT_ANOMALIES { n } else { REPORT_ANOMALIES };
    let mut j: usize = 0;
    assert(text@ =~= middle + recent_lines(anomalies@, 0));
    while j < count
        invariant
            j <= count,
            n == anomalies@.len(),
            count <= n,
            text@ == middle + recent_lines(anomalies@, j as nat),
        decreases count - j,
    {
        push_anomaly_line(&mut text, &anomalies[n - 1 - j]);
        assert(text@ =~= middle + recent_lines(anomalies@, (j + 1) as nat));
        j = j + 1;
    }
    let s = string_of(text.as_slice());
    assert(s@ =~= report_spec(session_id@, generated@, processed as nat, stats@, rates@, anomalies@));
    s
}

} // verus!
