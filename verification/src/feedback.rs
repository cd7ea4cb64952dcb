//! The feedback mail: the system summary read from the machine's report
//! line, and the body of the message.

use vstd::prelude::*;
use crate::text::{owned, push_str};
use crate::textscan::{split, split_str, trim, trim_str, lemma_split_nonempty};

verus! {

/// Pieces joined with a separator between them.
pub open spec fn join(ps: Seq<Seq<char>>, c: char) -> Seq<char>
    decreases ps.len(),
{
    if ps.len() == 0 {
        Seq::empty()
    } else if ps.len() == 1 {
        ps[0]
    } else {
        join(ps.drop_last(), c) + seq![c] + ps.last()
    }
}

/// `s.splitn(n, c)`: the first `n - 1` pieces between separators, then the
/// rest of the text as the last piece.
pub open spec fn splitn(s: Seq<char>, n: nat, c: char) -> Seq<Seq<char>> {
    let parts = split(s, c);
    if parts.len() <= n || n == 0 {
        parts
    } else {
        parts.take(n - 1).push(join(parts.skip(n - 1), c))
    }
}

/// Field `k` of the report, or `dflt` when it is missing or empty.
pub open spec fn field_or(fields: Seq<Seq<char>>, k: int, dflt: Seq<char>) -> Seq<char> {
    if k < fields.len() && fields[k].len() > 0 {
        fields[k]
    } else {
        dflt
    }
}

/// The system summary of a report line `os|version|arch|locale|timezone|
/// cpu|gpu|driver` (surrounding white space ignored; a missing field shows
/// as `?`, the system's name as `Windows`).
pub open spec fn diagnostics(report: Seq<char>) -> Seq<char> {
    let f = splitn(trim(report), 8, '|');
    "操作系统："@ + field_or(f, 0, "Windows"@) + " ("@ + field_or(f, 1, "?"@) + ") "@ + field_or(f, 2, "?"@)
        + "\n系统语言："@ + field_or(f, 3, "?"@) + "\n时区："@ + field_or(f, 4, "?"@) + "\nCPU："@
        + field_or(f, 5, "?"@) + "\n显卡："@ + field_or(f, 6, "?"@) + "（驱动 "@ + field_or(f, 7, "?"@) + "）"@
}

fn pick<'a>(fields: &'a Vec<String>, k: usize, dflt: &'a str) -> (r: &'a str)
    ensures
        r@ == field_or(fields@.map_values(|p: String| p@), k as int, dflt@),
{
    if k < fields.len() && !fields[k].as_str().is_empty() {
        proof {
            assert(fields@.map_values(|p: String| p@)[k as int] == fields@[k as int]@);
        }
        fields[k].as_str()
    } else {
        dflt
    }
}

/// The report line cut into its eight fields.
fn report_fields(report: &str) -> (r: Vec<String>)
    ensures
        r@.map_values(|p: String| p@) == splitn(trim(report@), 8, '|'),
{
    let t = trim_str(report);
    let parts = split_str(t.as_str(), '|');
    let ghost pv = split(t@, '|');
    proof {
        lemma_split_nonempty(t@, '|');
    }
    let mut out: Vec<String> = Vec::new();
    let mut j: usize = 0;
    let keep = if parts.len() <= 8 {
        parts.len()
    } else {
        7
    };
    while j < keep
        invariant
            keep <= parts@.len(),
            parts@.len() == pv.len(),
            forall|k: int| 0 <= k < parts@.len() ==> #[trigger] parts@[k]@ == pv[k],
            j <= keep,
            out@.len() == j,
            forall|k: int| 0 <= k < j ==> #[trigger] out@[k]@ == pv[k],
        decreases keep - j,
    {
        out.push(parts[j].clone());
        j = j + 1;
    }
    if parts.len() > 8 {
        let mut rest = String::new();
        let mut k: usize = 7;
        proof {
            assert(pv.skip(7).take(0) =~= Seq::<Seq<char>>::empty());
        }
        while k < parts.len()
            invariant
                parts@.len() == pv.len(),
                pv.len() > 8,
                forall|q: int| 0 <= q < parts@.len() ==> #[trigger] parts@[q]@ == pv[q],
                7 <= k <= parts@.len(),
                rest@ == join(pv.skip(7).take(k - 7), '|'),
            decreases parts@.len() - k,
        {
            proof {
                reveal_strlit("|");
                assert(pv.skip(7).take(k + 1 - 7).drop_last() =~= pv.skip(7).take(k - 7));
                assert(pv.skip(7).take(k + 1 - 7).last() == pv[k as int]);
            }
            if k > 7 {
                push_str(&mut rest, "|");
            }
            push_str(&mut rest, parts[k].as_str());
            proof {
                if k == 7 {
                    assert(rest@ =~= join(pv.skip(7).take(1), '|'));
                } else {
                    assert(rest@ =~= join(pv.skip(7).take(k + 1 - 7), '|'));
                }
            }
            k = k + 1;
        }
        proof {
            assert(pv.skip(7).take(pv.len() - 7) =~= pv.skip(7));
        }
        out.push(rest);
    }
    proof {
        let ov = out@.map_values(|p: String| p@);
        if pv.len() <= 8 {
            assert(ov =~= pv);
        } else {
            assert(ov =~= pv.take(7).push(join(pv.skip(7), '|')));
        }
    }
    out
}

/// The system summary of the feedback mail, from the machine's report line.
pub fn diagnostics_text(report: &str) -> (r: String)
    ensures
        r@ == diagnostics(report@),
{
    let f = report_fields(report);
    let ghost fv = f@.map_values(|p: String| p@);
    let mut out = owned("操作系统：");
    push_str(&mut out, pick(&f, 0, "Windows"));
    push_str(&mut out, " (");
    push_str(&mut out, pick(&f, 1, "?"));
    push_str(&mut out, ") ");
    push_str(&mut out, pick(&f, 2, "?"));
    push_str(&mut out, "\n系统语言：");
    push_str(&mut out, pick(&f, 3, "?"));
    push_str(&mut out, "\n时区：");
    push_str(&mut out, pick(&f, 4, "?"));
    push_str(&mut out, "\nCPU：");
    push_str(&mut out, pick(&f, 5, "?"));
    push_str(&mut out, "\n显卡：");
    push_str(&mut out, pick(&f, 6, "?"));
    push_str(&mut out, "（驱动 ");
    push_str(&mut out, pick(&f, 7, "?"));
    push_str(&mut out, "）");
    out
}

/// The body of a feedback mail.
pub open spec fn feedback_body(message: Seq<char>, version: Seq<char>, diag: Seq<char>, arch: Seq<char>, time: Seq<char>, log_dir: Seq<char>) -> Seq<char> {
    "【VoxAlic 用户反馈】\n───────────────────\n"@ + message + "\n───────────────────\n版本：v"@ + version + "\n"@
        + diag + "\n架构："@ + arch + "\n时间："@ + time + "\n\n📂 日志文件位于："@ + log_dir
        + "\\voxalic.log\n（请附上日志文件，便于排查问题）"@
}

/// Compose the body of a feedback mail.
pub fn feedback_text(message: &str, version: &str, diag: &str, arch: &str, time: &str, log_dir: &str) -> (r: String)
    ensures
        r@ == feedback_body(message@, version@, diag@, arch@, time@, log_dir@),
{
    let mut out = owned("【VoxAlic 用户反馈】\n───────────────────\n");
    push_str(&mut out, message);
    push_str(&mut out, "\n───────────────────\n版本：v");
    push_str(&mut out, version);
    push_str(&mut out, "\n");
    push_str(&mut out, diag);
    push_str(&mut out, "\n架构：");
    push_str(&mut out, arch);
    push_str(&mut out, "\n时间：");
    push_str(&mut out, time);
    push_str(&mut out, "\n\n📂 日志文件位于：");
    push_str(&mut out, log_dir);
    push_str(&mut out, "\\voxalic.log\n（请附上日志文件，便于排查问题）");
    out
}

} // verus!
