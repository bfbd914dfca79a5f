//! The texts that the scope shows and writes. Numbers with decimals come as text already.

use crate::samples::SAMPLE_RATE_HZ;
use crate::text::{
    decimal, decimal_reads_back, lemma_pieces, number_of, pieces, stands_at, to_decimal,
};
use vstd::prelude::*;
use vstd::string::*;

verus! {

/// The line on the state of the buffer: with the details, how many samples it holds and how
/// many came in all.
pub open spec fn hud_line(details: bool, n: nat, emitted: nat) -> Seq<char> {
    let rate = "Fs = "@ + decimal(SAMPLE_RATE_HZ as nat) + " Hz"@;
    if details {
        rate + "   buffer N = "@ + decimal(n) + "   emitted = "@ + decimal(emitted)
    } else {
        rate
    }
}

/// The line on the state of the buffer.
pub fn hud_text(details: bool, n: usize, emitted: u64) -> (res: String)
    ensures
        res@ == hud_line(details, n as nat, emitted as nat),
{
    let mut res = String::from_str("Fs = ");
    res.append(to_decimal(SAMPLE_RATE_HZ as u64).as_str());
    res.append(" Hz");
    if details {
        res.append("   buffer N = ");
        res.append(to_decimal(n as u64).as_str());
        res.append("   emitted = ");
        res.append(to_decimal(emitted).as_str());
    }
    res
}

/// The text on the last spectrum, from its sizes and the milliseconds that it took.
pub open spec fn spectrum_note(sizes: Option<(usize, usize)>, took: Seq<char>) -> Seq<char> {
    match sizes {
        Some((n, n_pad)) => "FFT: N="@ + decimal(n as nat) + " pad="@ + decimal(n_pad as nat)
            + " took "@ + took + " ms"@,
        None => "FFT: (waiting)"@,
    }
}

/// The text on the last spectrum.
pub fn fft_info(sizes: Option<(usize, usize)>, took: &str) -> (res: String)
    ensures
        res@ == spectrum_note(sizes, took@),
{
    match sizes {
        Some((n, n_pad)) => {
            let mut res = String::from_str("FFT: N=");
            res.append(to_decimal(n as u64).as_str());
            res.append(" pad=");
            res.append(to_decimal(n_pad as u64).as_str());
            res.append(" took ");
            res.append(took);
            res.append(" ms");
            res
        },
        None => String::from_str("FFT: (waiting)"),
    }
}

/// The line on the pace of the frames: the milliseconds that a snapshot took and that lay between
/// two frames, the frames in a second, and the text on the last spectrum.
pub open spec fn perf_line(
    snapshot: Seq<char>,
    inter: Seq<char>,
    fps: Seq<char>,
    info: Seq<char>,
) -> Seq<char> {
    "perf: snapshot "@ + snapshot + " ms   inter-frame "@ + inter + " ms   \u{2248} "@ + fps
        + " fps   |   "@ + info
}

/// The line on the pace of the frames.
pub fn perf_text(snapshot: &str, inter: &str, fps: &str, info: &str) -> (res: String)
    ensures
        res@ == perf_line(snapshot@, inter@, fps@, info@),
{
    let mut res = String::from_str("perf: snapshot ");
    res.append(snapshot);
    res.append(" ms   inter-frame ");
    res.append(inter);
    res.append(" ms   \u{2248} ");
    res.append(fps);
    res.append(" fps   |   ");
    res.append(info);
    res
}

/// The title of the upper plot, from the ends of the view and, for the details, its span.
pub open spec fn time_heading(
    details: bool,
    start: Seq<char>,
    end: Seq<char>,
    span: Seq<char>,
) -> Seq<char> {
    let heading = "Time domain \u{2014} I(t)   t \u{2208} ["@ + start + ", "@ + end + "]"@;
    if details {
        heading + "   span = "@ + span
    } else {
        heading
    }
}

/// The title of the upper plot.
pub fn time_title(details: bool, start: &str, end: &str, span: &str) -> (res: String)
    ensures
        res@ == time_heading(details, start@, end@, span@),
{
    let mut res = String::from_str("Time domain \u{2014} I(t)   t \u{2208} [");
    res.append(start);
    res.append(", ");
    res.append(end);
    res.append("]");
    if details {
        res.append("   span = ");
        res.append(span);
    }
    res
}

/// The title of the lower plot, from the ends of the axis and, for the details, the number of
/// samples that the spectrum is of.
pub open spec fn freq_heading(
    details: bool,
    from: Seq<char>,
    to: Seq<char>,
    points: Option<usize>,
) -> Seq<char> {
    let heading = "Frequency domain \u{2014} |I|(f)   f \u{2208} ["@ + from + ", "@ + to + "]"@;
    if !details {
        heading
    } else {
        match points {
            Some(n) => heading + "   slice = "@ + decimal(n as nat) + " pts"@,
            None => heading + "   (computing\u{2026})"@,
        }
    }
}

/// The title of the lower plot.
pub fn freq_title(details: bool, from: &str, to: &str, points: Option<usize>) -> (res: String)
    ensures
        res@ == freq_heading(details, from@, to@, points),
{
    let mut res = String::from_str("Frequency domain \u{2014} |I|(f)   f \u{2208} [");
    res.append(from);
    res.append(", ");
    res.append(to);
    res.append("]");
    if details {
        match points {
            Some(n) => {
                res.append("   slice = ");
                res.append(to_decimal(n as u64).as_str());
                res.append(" pts");
            },
            None => {
                res.append("   (computing\u{2026})");
            },
        }
    }
    res
}

/// The label of the state: running or stopped.
pub fn state_label(running: bool) -> (res: &'static str)
    ensures
        res@ == if running {
            "\u{25CF} RUN"@
        } else {
            "\u{25A0} STOP"@
        },
{
    if running {
        "\u{25CF} RUN"
    } else {
        "\u{25A0} STOP"
    }
}

/// The name of the file for an export at this time, in seconds of the epoch.
pub fn csv_path(seconds: u64) -> (res: String)
    ensures
        res@ == "flicker_"@ + decimal(seconds as nat) + ".csv"@,
{
    let mut res = String::from_str("flicker_");
    res.append(to_decimal(seconds).as_str());
    res.append(".csv");
    res
}

/// The line of one sample in an export: its index, its time in milliseconds and its value.
pub open spec fn csv_line(i: int, row: (Seq<char>, Seq<char>)) -> Seq<char> {
    decimal(i as nat) + ","@ + row.0 + ","@ + row.1 + "\n"@
}

/// An export: a heading, and a line for each sample.
pub open spec fn csv_lines(rows: Seq<(Seq<char>, Seq<char>)>) -> Seq<char>
    decreases rows.len(),
{
    if rows.len() == 0 {
        "sample_idx,t_ms,value\n"@
    } else {
        csv_lines(rows.drop_last()) + csv_line(rows.len() - 1, rows.last())
    }
}

/// The times and the values of samples, as text.
pub open spec fn row_texts(rows: Seq<(String, String)>) -> Seq<(Seq<char>, Seq<char>)> {
    rows.map_values(|r: (String, String)| (r.0@, r.1@))
}

/// The text of an export, from the time in milliseconds and the value of each sample.
pub fn export_csv(rows: &Vec<(String, String)>) -> (res: String)
    ensures
        res@ == csv_lines(row_texts(rows@)),
{
    let mut res = String::from_str("sample_idx,t_ms,value\n");
    let mut i: usize = 0;
    let ghost texts = row_texts(rows@);
    assert(texts.take(0).len() == 0);
    while i < rows.len()
        invariant
            i <= rows.len(),
            texts == row_texts(rows@),
            res@ == csv_lines(texts.take(i as int)),
        decreases rows.len() - i,
    {
        let ghost before = res@;
        res.append(to_decimal(i as u64).as_str());
        res.append(",");
        res.append(rows[i].0.as_str());
        res.append(",");
        res.append(rows[i].1.as_str());
        res.append("\n");
        proof {
            let done = texts.take(i + 1);
            assert(done.drop_last() == texts.take(i as int));
            assert(done.last() == (rows@[i as int].0@, rows@[i as int].1@));
            assert(res@ == before + csv_line(i as int, done.last()));
        }
        i += 1;
    }
    assert(texts.take(i as int) == texts);
    res
}

/// The status after an export that worked.
pub fn saved_status(path: &str, samples: usize) -> (res: String)
    ensures
        res@ == "saved "@ + path@ + " ("@ + decimal(samples as nat) + " samples)"@,
{
    let mut res = String::from_str("saved ");
    res.append(path);
    res.append(" (");
    res.append(to_decimal(samples as u64).as_str());
    res.append(" samples)");
    res
}

/// The status after an export that failed.
pub fn failed_status(error: &str) -> (res: String)
    ensures
        res@ == "save failed: "@ + error@,
{
    String::from_str("save failed: ").concat(error)
}

/// The times and the values of an export are those of its rows, one by one.
pub proof fn rows_are_taken_one_by_one(rows: Seq<(String, String)>, i: int)
    requires
        0 <= i < rows.len(),
    ensures
        row_texts(rows).len() == rows.len(),
        row_texts(rows)[i].0 == rows[i].0@,
        row_texts(rows)[i].1 == rows[i].1@,
{
}

/// The line of a sample starts with its own index, which reads back as what it is, and a comma;
/// then come the time, another comma, the value, and the end of the line.
pub proof fn line_starts_with_its_index(i: nat, row: (Seq<char>, Seq<char>))
    ensures
        ({
            let line = csv_line(i as int, row);
            let k = decimal(i).len() as int;
            let m = k + 1 + row.0.len();
            &&& number_of(line.take(k)) == i
            &&& forall|j: int| 0 <= j < k ==> 0x30 <= (#[trigger] line[j]) as int <= 0x39
            &&& line[k] == ','
            &&& stands_at(row.0, line, k + 1)
            &&& line[m] == ','
            &&& stands_at(row.1, line, m + 1)
            &&& line.len() == m + 1 + row.1.len() + 1
            &&& line.last() == '\n'
        }),
{
    reveal_strlit(",");
    reveal_strlit("\n");
    decimal_reads_back(i);
    let line = csv_line(i as int, row);
    let k = decimal(i).len() as int;
    let m = k + 1 + row.0.len();
    assert(line.take(k) == decimal(i));
    assert forall|j: int| 0 <= j < k implies 0x30 <= (#[trigger] line[j]) as int <= 0x39 by {
        assert(line[j] == decimal(i)[j]);
    }
    assert(line.subrange(k + 1, m) == row.0);
    assert(line.subrange(m + 1, m + 1 + row.1.len()) == row.1);
}

/// One more sample adds its line to an export and changes nothing before it; without samples an
/// export is its heading. This holds whatever stands in the texts.
pub proof fn export_grows_line_by_line(
    rows: Seq<(Seq<char>, Seq<char>)>,
    row: (Seq<char>, Seq<char>),
)
    ensures
        csv_lines(Seq::empty()) == "sample_idx,t_ms,value\n"@,
        csv_lines(rows.push(row)) == csv_lines(rows) + csv_line(rows.len() as int, row),
{
    assert(rows.push(row).drop_last() == rows);
}

/// A text that can stand in a field of an export: it holds neither a comma nor the end of a line.
pub open spec fn fits_in_a_field(s: Seq<char>) -> bool {
    !s.contains(',') && !s.contains('\n')
}

/// An export reads back as what was written. Cut at the ends of its lines it is a heading, a line
/// for each sample in order, and nothing behind them; cut at its commas, the heading names the
/// three columns, and the line of the sample at `i` holds the number `i`, its time and its value.
pub proof fn export_reads_back(rows: Seq<(Seq<char>, Seq<char>)>)
    requires
        forall|i: int|
            0 <= i < rows.len() ==> fits_in_a_field((#[trigger] rows[i]).0) && fits_in_a_field(
                rows[i].1,
            ),
    ensures
        ({
            let lines = pieces(csv_lines(rows), '\n');
            &&& lines.len() == rows.len() + 2
            &&& pieces(lines[0], ',') == seq!["sample_idx"@, "t_ms"@, "value"@]
            &&& forall|i: int|
                0 <= i < rows.len() ==> {
                    let fields = pieces(#[trigger] lines[i + 1], ',');
                    &&& fields.len() == 3
                    &&& number_of(fields[0]) == i
                    &&& fields[0] == decimal(i as nat)
                    &&& fields[1] == rows[i].0
                    &&& fields[2] == rows[i].1
                }
            &&& lines.last().len() == 0
        }),
    decreases rows.len(),
{
    let text = csv_lines(rows);
    let lines = pieces(text, '\n');
    if rows.len() == 0 {
        lemma_heading();
    } else {
        let earlier = rows.drop_last();
        let (i, row) = ((rows.len() - 1) as nat, rows.last());
        assert forall|j: int| 0 <= j < earlier.len() implies fits_in_a_field(
            (#[trigger] earlier[j]).0,
        ) && fits_in_a_field(earlier[j].1) by {
            assert(earlier[j] == rows[j]);
        }
        export_reads_back(earlier);
        assert(rows[rows.len() - 1] == row);
        let before = csv_lines(earlier);
        lemma_ends_with_a_line_end(earlier);
        let body = lemma_line_body(i, row);
        let head = before.drop_last();
        lemma_pieces(head, seq![], '\n');
        assert(before == head.push('\n') + Seq::<char>::empty());
        lemma_pieces(head, body, '\n');
        assert(head.push('\n') + body == before + body);
        lemma_pieces(before + body, seq![], '\n');
        assert(text == (before + body).push('\n') + Seq::<char>::empty());
        let old_lines = pieces(before, '\n');
        assert(lines == pieces(head, '\n').push(body).push(seq![]));
        assert(old_lines == pieces(head, '\n').push(seq![]));
        assert(lines[0] == old_lines[0]);
        assert forall|j: int| 0 <= j < rows.len() implies {
            let fields = pieces(#[trigger] lines[j + 1], ',');
            &&& fields.len() == 3
            &&& number_of(fields[0]) == j
            &&& fields[0] == decimal(j as nat)
            &&& fields[1] == rows[j].0
            &&& fields[2] == rows[j].1
        } by {
            if j < earlier.len() {
                assert(lines[j + 1] == old_lines[j + 1]);
                assert(earlier[j] == rows[j]);
            } else {
                assert(lines[j + 1] == body);
            }
        }
    }
}

proof fn lemma_heading()
    ensures
        ({
            let lines = pieces("sample_idx,t_ms,value\n"@, '\n');
            &&& lines.len() == 2
            &&& pieces(lines[0], ',') == seq!["sample_idx"@, "t_ms"@, "value"@]
            &&& lines[1].len() == 0
        }),
{
    reveal_strlit("sample_idx,t_ms,value\n");
    reveal_strlit("sample_idx");
    reveal_strlit("t_ms");
    reveal_strlit("value");
    let all = "sample_idx,t_ms,value\n"@;
    let head = all.drop_last();
    assert(all == head.push('\n') + Seq::<char>::empty());
    lemma_pieces(head, seq![], '\n');
    lemma_pieces(seq![], head, '\n');
    let (a, b, c) = ("sample_idx"@, "t_ms"@, "value"@);
    lemma_pieces(seq![], a, ',');
    lemma_pieces(a, b, ',');
    lemma_pieces(a.push(',') + b, c, ',');
    assert(head == (a.push(',') + b).push(',') + c);
    assert(pieces(head, ',') == seq![a, b, c]);
}

proof fn lemma_ends_with_a_line_end(rows: Seq<(Seq<char>, Seq<char>)>)
    ensures
        csv_lines(rows).len() > 0,
        csv_lines(rows).last() == '\n',
{
    reveal_strlit("sample_idx,t_ms,value\n");
    reveal_strlit("\n");
}

/// The line of a sample without its end, and its fields.
proof fn lemma_line_body(i: nat, row: (Seq<char>, Seq<char>)) -> (body: Seq<char>)
    requires
        fits_in_a_field(row.0),
        fits_in_a_field(row.1),
    ensures
        csv_line(i as int, row) == body.push('\n'),
        !body.contains('\n'),
        pieces(body, ',') == seq![decimal(i), row.0, row.1],
        number_of(decimal(i)) == i,
{
    reveal_strlit(",");
    reveal_strlit("\n");
    decimal_reads_back(i);
    let d = decimal(i);
    let body = (d.push(',') + row.0).push(',') + row.1;
    assert(csv_line(i as int, row) == body.push('\n'));
    assert(!d.contains(',') && !d.contains('\n')) by {
        assert(forall|j: int| 0 <= j < d.len() ==> #[trigger] d[j] != ',' && d[j] != '\n');
    }
    assert(!body.contains('\n')) by {
        if body.contains('\n') {
            let j = choose|j: int| 0 <= j < body.len() && body[j] == '\n';
            let k = d.len() + 1 + row.0.len();
            if j < d.len() {
                assert(d[j] == '\n');
            } else if d.len() < j < k {
                assert(row.0[j - d.len() - 1] == '\n');
            } else if j > k {
                assert(row.1[j - k - 1] == '\n');
            }
        }
    }
    lemma_pieces(seq![], d, ',');
    lemma_pieces(d, row.0, ',');
    lemma_pieces(d.push(',') + row.0, row.1, ',');
    assert(pieces(body, ',') == seq![d, row.0, row.1]);
    body
}

/// The line on the buffer tells the rate, and with the details the two numbers behind their
/// names; without the details it is the start of the line with them.
pub proof fn hud_tells_the_numbers(n: nat, emitted: nat)
    ensures
        hud_line(false, n, emitted) == "Fs = 16000 Hz"@,
        ({
            let line = hud_line(true, n, emitted);
            let k = 27int + decimal(n).len();
            &&& stands_at("Fs = 16000 Hz   buffer N = "@, line, 0)
            &&& stands_at(decimal(n), line, 27)
            &&& stands_at("   emitted = "@, line, k)
            &&& stands_at(decimal(emitted), line, k + 13)
            &&& line.len() == k + 13 + decimal(emitted).len()
        }),
{
    reveal_strlit("Fs = ");
    reveal_strlit(" Hz");
    reveal_strlit("   buffer N = ");
    reveal_strlit("   emitted = ");
    reveal_strlit("Fs = 16000 Hz");
    reveal_strlit("Fs = 16000 Hz   buffer N = ");
    reveal_with_fuel(decimal, 6);
    assert(decimal(16000) == seq!['1', '6', '0', '0', '0']);
    assert(hud_line(false, n, emitted) == "Fs = 16000 Hz"@);
    let line = hud_line(true, n, emitted);
    let k = 27int + decimal(n).len();
    assert(line.subrange(0, 27) == "Fs = 16000 Hz   buffer N = "@);
    assert(line.subrange(27, k) == decimal(n));
    assert(line.subrange(k, k + 13) == "   emitted = "@);
    assert(line.subrange(k + 13, line.len() as int) == decimal(emitted));
}

/// The text on a spectrum tells the two sizes and the time that it took, each behind its name;
/// before the first spectrum it says that it waits.
pub proof fn note_tells_the_sizes(n: usize, n_pad: usize, took: Seq<char>)
    ensures
        spectrum_note(None, took) == "FFT: (waiting)"@,
        ({
            let note = spectrum_note(Some((n, n_pad)), took);
            let (a, b) = (decimal(n as nat), decimal(n_pad as nat));
            let k = 7int + a.len();
            let m = k + 5 + b.len();
            &&& stands_at("FFT: N="@, note, 0)
            &&& stands_at(a, note, 7)
            &&& stands_at(" pad="@, note, k)
            &&& stands_at(b, note, k + 5)
            &&& stands_at(" took "@, note, m)
            &&& stands_at(took, note, m + 6)
            &&& stands_at(" ms"@, note, m + 6 + took.len())
            &&& note.len() == m + 6 + took.len() + 3
        }),
{
    reveal_strlit("FFT: N=");
    reveal_strlit(" pad=");
    reveal_strlit(" took ");
    reveal_strlit(" ms");
    let note = spectrum_note(Some((n, n_pad)), took);
    let (a, b) = (decimal(n as nat), decimal(n_pad as nat));
    let k = 7int + a.len();
    let m = k + 5 + b.len();
    assert(note.subrange(0, 7) == "FFT: N="@);
    assert(note.subrange(7, k) == a);
    assert(note.subrange(k, k + 5) == " pad="@);
    assert(note.subrange(k + 5, m) == b);
    assert(note.subrange(m, m + 6) == " took "@);
    assert(note.subrange(m + 6, m + 6 + took.len()) == took);
    assert(note.subrange(m + 6 + took.len(), note.len() as int) == " ms"@);
}

/// The line on the pace tells the three numbers, each behind its name, and ends with the text on
/// the last spectrum.
pub proof fn perf_tells_the_numbers(
    snapshot: Seq<char>,
    inter: Seq<char>,
    fps: Seq<char>,
    info: Seq<char>,
)
    ensures
        ({
            let line = perf_line(snapshot, inter, fps, info);
            let k = 15int + snapshot.len();
            let m = k + 18 + inter.len();
            let p = m + 8 + fps.len();
            &&& stands_at("perf: snapshot "@, line, 0)
            &&& stands_at(snapshot, line, 15)
            &&& stands_at(" ms   inter-frame "@, line, k)
            &&& stands_at(inter, line, k + 18)
            &&& stands_at(" ms   \u{2248} "@, line, m)
            &&& stands_at(fps, line, m + 8)
            &&& stands_at(" fps   |   "@, line, p)
            &&& stands_at(info, line, p + 11)
            &&& line.len() == p + 11 + info.len()
        }),
{
    reveal_strlit("perf: snapshot ");
    reveal_strlit(" ms   inter-frame ");
    reveal_strlit(" ms   \u{2248} ");
    reveal_strlit(" fps   |   ");
    let line = perf_line(snapshot, inter, fps, info);
    let k = 15int + snapshot.len();
    let m = k + 18 + inter.len();
    let p = m + 8 + fps.len();
    assert(line.subrange(0, 15) == "perf: snapshot "@);
    assert(line.subrange(15, k) == snapshot);
    assert(line.subrange(k, k + 18) == " ms   inter-frame "@);
    assert(line.subrange(k + 18, m) == inter);
    assert(line.subrange(m, m + 8) == " ms   \u{2248} "@);
    assert(line.subrange(m + 8, p) == fps);
    assert(line.subrange(p, p + 11) == " fps   |   "@);
    assert(line.subrange(p + 11, line.len() as int) == info);
}

/// The title of the upper plot tells both ends of the view in brackets, the earlier one first. The
/// details add the span behind that, and change nothing before it.
pub proof fn time_title_tells_the_ends(start: Seq<char>, end: Seq<char>, span: Seq<char>)
    ensures
        ({
            let title = time_heading(false, start, end, span);
            let k = 26int + start.len();
            &&& stands_at("Time domain \u{2014} I(t)   t \u{2208} ["@, title, 0)
            &&& stands_at(start, title, 26)
            &&& stands_at(", "@, title, k)
            &&& stands_at(end, title, k + 2)
            &&& stands_at("]"@, title, k + 2 + end.len())
            &&& title.len() == k + 2 + end.len() + 1
            &&& time_heading(true, start, end, span) == title + "   span = "@ + span
        }),
{
    reveal_strlit("Time domain \u{2014} I(t)   t \u{2208} [");
    reveal_strlit(", ");
    reveal_strlit("]");
    let title = time_heading(false, start, end, span);
    let k = 26int + start.len();
    assert(title.subrange(0, 26) == "Time domain \u{2014} I(t)   t \u{2208} ["@);
    assert(title.subrange(26, k) == start);
    assert(title.subrange(k, k + 2) == ", "@);
    assert(title.subrange(k + 2, k + 2 + end.len()) == end);
    assert(title.subrange(k + 2 + end.len(), title.len() as int) == "]"@);
}

/// The title of the lower plot tells both ends of the axis in brackets, the lower one first. The
/// details add the number of samples behind that, or that the spectrum is being computed.
pub proof fn freq_title_tells_the_ends(from: Seq<char>, to: Seq<char>, points: Option<usize>)
    ensures
        ({
            let title = freq_heading(false, from, to, points);
            let detailed = freq_heading(true, from, to, points);
            let k = 33int + from.len();
            &&& stands_at("Frequency domain \u{2014} |I|(f)   f \u{2208} ["@, title, 0)
            &&& stands_at(from, title, 33)
            &&& stands_at(", "@, title, k)
            &&& stands_at(to, title, k + 2)
            &&& stands_at("]"@, title, k + 2 + to.len())
            &&& title.len() == k + 2 + to.len() + 1
            &&& points is None ==> detailed == title + "   (computing\u{2026})"@
            &&& points matches Some(n) ==> detailed == title + "   slice = "@ + decimal(n as nat)
                + " pts"@
        }),
{
    reveal_strlit("Frequency domain \u{2014} |I|(f)   f \u{2208} [");
    reveal_strlit(", ");
    reveal_strlit("]");
    let title = freq_heading(false, from, to, points);
    let k = 33int + from.len();
    assert(title.subrange(0, 33) == "Frequency domain \u{2014} |I|(f)   f \u{2208} ["@);
    assert(title.subrange(33, k) == from);
    assert(title.subrange(k, k + 2) == ", "@);
    assert(title.subrange(k + 2, k + 2 + to.len()) == to);
    assert(title.subrange(k + 2 + to.len(), title.len() as int) == "]"@);
}

} // verus!
