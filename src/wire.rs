//! The wire format of the control protocol: how jobs, job listings, requests
//! and replies are written as JSON text, how that text is read back, and the
//! proofs that reading what was written gives the value back.
use vstd::prelude::*;
use crate::command::{Command, CommandView, CommandResponse, CommandResponseView, ErrorKind};
use crate::job::{Job, JobInfo, JobInfoView, JobView};
use crate::json::{enc_array, join, lemma_join_push};
use crate::json::{
    enc_opt_number, enc_text, enc_texts, expect_byte, holds_at, lemma_holds_at_concat,
    lemma_holds_at_index, lemma_opt_number_round_trip, lemma_text_round_trip,
    lemma_texts_round_trip, opt_number_at, push_opt_number, push_text, push_texts,
    read_opt_number, read_text, read_texts, skip, text_at, texts_at, CLOSE_BRACKET, COMMA,
    OPEN_BRACKET, QUOTE,
};
use crate::words::{
    expect_key, key, lemma_name_round_trip, name_at, push_key, push_quoted, quoted, read_name,
    same_bytes, word,
    word_bytes, Word, CLOSE_BRACE, COLON, OPEN_BRACE,
};

verus! {

/// `{"w":` — the opening of a one-member object keyed by `w`.
pub open spec fn open_tag(w: Word) -> Seq<u8> {
    seq![OPEN_BRACE] + key(word(w))
}

/// A job as JSON text: a one-member object keyed by its variant.
pub open spec fn enc_job(j: JobView) -> Seq<u8> {
    match j {
        JobView::Command(p, a) => open_tag(Word::Command) + seq![OPEN_BRACKET] + enc_text(p)
            + seq![COMMA] + enc_texts(a) + seq![CLOSE_BRACKET] + seq![CLOSE_BRACE],
        JobView::RhaiScript(s) => open_tag(Word::RhaiScript) + enc_text(s) + seq![CLOSE_BRACE],
        JobView::RhaiScriptFile(f) => open_tag(Word::RhaiScriptFile) + enc_text(f) + seq![
            CLOSE_BRACE,
        ],
    }
}

/// The variant name of a one-member object that starts at `i`, and the
/// position after its colon.
pub open spec fn tag_at(b: Seq<u8>, i: int) -> Option<(Seq<u8>, int)> {
    match skip(b, i, seq![OPEN_BRACE]) {
        Some(i1) => match name_at(b, i1) {
            Some((n, i2)) => match skip(b, i2, seq![COLON]) {
                Some(i3) => Some((n, i3)),
                None => None,
            },
            None => None,
        },
        None => None,
    }
}

/// A string followed by the byte `c`: the string and the position after `c`.
pub open spec fn text_then(b: Seq<u8>, i: int, c: u8) -> Option<(Seq<char>, int)> {
    match text_at(b, i) {
        Some((s, j)) => match skip(b, j, seq![c]) {
            Some(k) => Some((s, k)),
            None => None,
        },
        None => None,
    }
}

/// The job whose JSON text starts at `i`, and the position after it.
#[verifier::opaque]
pub open spec fn job_at(b: Seq<u8>, i: int) -> Option<(JobView, int)> {
    match tag_at(b, i) {
        Some((n, j)) => if n == word(Word::Command) {
            match skip(b, j, seq![OPEN_BRACKET]) {
                Some(j1) => match text_then(b, j1, COMMA) {
                    Some((p, j2)) => match texts_at(b, j2) {
                        Some((a, j3)) => match skip(b, j3, seq![CLOSE_BRACKET]) {
                            Some(j4) => match skip(b, j4, seq![CLOSE_BRACE]) {
                                Some(j5) => Some((JobView::Command(p, a), j5)),
                                None => None,
                            },
                            None => None,
                        },
                        None => None,
                    },
                    None => None,
                },
                None => None,
            }
        } else if n == word(Word::RhaiScript) {
            match text_then(b, j, CLOSE_BRACE) {
                Some((s, k)) => Some((JobView::RhaiScript(s), k)),
                None => None,
            }
        } else if n == word(Word::RhaiScriptFile) {
            match text_then(b, j, CLOSE_BRACE) {
                Some((s, k)) => Some((JobView::RhaiScriptFile(s), k)),
                None => None,
            }
        } else {
            None
        },
        None => None,
    }
}

proof fn lemma_tag_round_trip(b: Seq<u8>, i: int, w: Word)
    requires
        holds_at(b, i, open_tag(w)),
    ensures
        tag_at(b, i) == Some((word(w), i + open_tag(w).len())),
{
    let n = word(w);
    lemma_holds_at_concat(b, i, seq![OPEN_BRACE], key(n));
    lemma_holds_at_concat(b, i + 1, quoted(n), seq![COLON]);
    lemma_name_round_trip(b, i + 1, w);
}

proof fn lemma_text_then_round_trip(b: Seq<u8>, i: int, s: Seq<char>, c: u8)
    requires
        holds_at(b, i, enc_text(s) + seq![c]),
    ensures
        text_then(b, i, c) == Some((s, i + enc_text(s).len() + 1)),
{
    lemma_holds_at_concat(b, i, enc_text(s), seq![c]);
    lemma_text_round_trip(b, i, s);
}

#[verifier::spinoff_prover]
proof fn lemma_command_job_round_trip(b: Seq<u8>, i: int, p: Seq<char>, a: Seq<Seq<char>>)
    requires
        holds_at(b, i, enc_job(JobView::Command(p, a))),
    ensures
        job_at(b, i) == Some((JobView::Command(p, a), i + enc_job(JobView::Command(p, a)).len())),
{
    reveal(job_at);
    let part1 = open_tag(Word::Command);
    let part2 = part1 + seq![OPEN_BRACKET];
    let part3 = part2 + enc_text(p);
    let part4 = part3 + seq![COMMA];
    let part5 = part4 + enc_texts(a);
    let part6 = part5 + seq![CLOSE_BRACKET];
    lemma_holds_at_concat(b, i, part6, seq![CLOSE_BRACE]);
    lemma_holds_at_concat(b, i, part5, seq![CLOSE_BRACKET]);
    lemma_holds_at_concat(b, i, part4, enc_texts(a));
    lemma_holds_at_concat(b, i, part2, enc_text(p) + seq![COMMA]);
    assert(part4 == part2 + (enc_text(p) + seq![COMMA]));
    lemma_holds_at_concat(b, i, part1, seq![OPEN_BRACKET]);
    lemma_tag_round_trip(b, i, Word::Command);
    lemma_text_then_round_trip(b, i + part2.len(), p, COMMA);
    lemma_texts_round_trip(b, i + part4.len(), a);
}

#[verifier::spinoff_prover]
proof fn lemma_script_round_trip(b: Seq<u8>, i: int, j: JobView)
    requires
        !(j is Command),
        holds_at(b, i, enc_job(j)),
    ensures
        job_at(b, i) == Some((j, i + enc_job(j).len())),
{
    reveal(job_at);
    let (w, s) = match j {
        JobView::RhaiScript(s) => (Word::RhaiScript, s),
        JobView::RhaiScriptFile(f) => (Word::RhaiScriptFile, f),
        JobView::Command(_, _) => (Word::Command, Seq::empty()),
    };
    assert(enc_job(j) == open_tag(w) + (enc_text(s) + seq![CLOSE_BRACE]));
    lemma_holds_at_concat(b, i, open_tag(w), enc_text(s) + seq![CLOSE_BRACE]);
    lemma_tag_round_trip(b, i, w);
    lemma_text_then_round_trip(b, i + open_tag(w).len(), s, CLOSE_BRACE);
    assert(word(Word::RhaiScript) != word(Word::Command));
    assert(word(Word::RhaiScriptFile) != word(Word::Command));
    assert(word(Word::RhaiScriptFile) != word(Word::RhaiScript));
}

/// Decoding the JSON text of a job gives the job back.
pub proof fn lemma_job_round_trip(b: Seq<u8>, i: int, j: JobView)
    requires
        holds_at(b, i, enc_job(j)),
    ensures
        job_at(b, i) == Some((j, i + enc_job(j).len())),
{
    match j {
        JobView::Command(p, a) => lemma_command_job_round_trip(b, i, p, a),
        _ => lemma_script_round_trip(b, i, j),
    }
}

/// Appends `{"w":`.
pub fn push_open_tag(out: &mut Vec<u8>, w: Word)
    ensures
        final(out)@ == old(out)@ + open_tag(w),
{
    out.push(OPEN_BRACE);
    push_key(out, w);
    proof {
        assert(final(out)@ =~= old(out)@ + open_tag(w));
    }
}

/// Whether the name `n` is the word `w`.
pub fn is_word(n: &Vec<u8>, w: Word) -> (r: bool)
    ensures
        r == (n@ == word(w)),
{
    let t = word_bytes(w);
    same_bytes(n.as_slice(), t.as_slice())
}

pub fn read_tag(b: &[u8], i: usize) -> (r: Option<(Vec<u8>, usize)>)
    ensures
        match r {
            Some((n, j)) => tag_at(b@, i as int) == Some((n@, j as int)),
            None => tag_at(b@, i as int) is None,
        },
{
    match expect_byte(b, i, OPEN_BRACE) {
        Some(i1) => match read_name(b, i1) {
            Some((n, i2)) => match expect_byte(b, i2, COLON) {
                Some(i3) => Some((n, i3)),
                None => None,
            },
            None => None,
        },
        None => None,
    }
}

pub fn read_text_then(b: &[u8], i: usize, c: u8) -> (r: Option<(String, usize)>)
    ensures
        match r {
            Some((s, j)) => text_then(b@, i as int, c) == Some((s@, j as int)),
            None => text_then(b@, i as int, c) is None,
        },
{
    match read_text(b, i) {
        Some((s, j)) => match expect_byte(b, j, c) {
            Some(k) => Some((s, k)),
            None => None,
        },
        None => None,
    }
}

/// Appends the JSON text of a job.
pub fn push_job(out: &mut Vec<u8>, j: &Job)
    ensures
        final(out)@ == old(out)@ + enc_job(j@),
{
    match j {
        Job::Command(p, a) => {
            push_open_tag(out, Word::Command);
            out.push(OPEN_BRACKET);
            push_text(out, p.as_str());
            out.push(COMMA);
            push_texts(out, a);
            out.push(CLOSE_BRACKET);
            out.push(CLOSE_BRACE);
        },
        Job::RhaiScript(s) => {
            push_open_tag(out, Word::RhaiScript);
            push_text(out, s.as_str());
            out.push(CLOSE_BRACE);
        },
        Job::RhaiScriptFile(f) => {
            push_open_tag(out, Word::RhaiScriptFile);
            push_text(out, f.as_str());
            out.push(CLOSE_BRACE);
        },
    }
    proof {
        assert(final(out)@ =~= old(out)@ + enc_job(j@));
    }
}

/// The job whose JSON text starts at `i`, and the position after it.
pub fn read_job(b: &[u8], i: usize) -> (r: Option<(Job, usize)>)
    ensures
        match r {
            Some((j, k)) => job_at(b@, i as int) == Some((j@, k as int)),
            None => job_at(b@, i as int) is None,
        },
{
    proof {
        reveal(job_at);
    }
    let (n, j) = match read_tag(b, i) {
        Some(t) => t,
        None => return None,
    };
    if is_word(&n, Word::Command) {
        let j1 = match expect_byte(b, j, OPEN_BRACKET) {
            Some(x) => x,
            None => return None,
        };
        let (p, j2) = match read_text_then(b, j1, COMMA) {
            Some(x) => x,
            None => return None,
        };
        let (a, j3) = match read_texts(b, j2) {
            Some(x) => x,
            None => return None,
        };
        let j4 = match expect_byte(b, j3, CLOSE_BRACKET) {
            Some(x) => x,
            None => return None,
        };
        match expect_byte(b, j4, CLOSE_BRACE) {
            Some(j5) => Some((Job::Command(p, a), j5)),
            None => None,
        }
    } else if is_word(&n, Word::RhaiScript) {
        match read_text_then(b, j, CLOSE_BRACE) {
            Some((s, k)) => Some((Job::RhaiScript(s), k)),
            None => None,
        }
    } else if is_word(&n, Word::RhaiScriptFile) {
        match read_text_then(b, j, CLOSE_BRACE) {
            Some((s, k)) => Some((Job::RhaiScriptFile(s), k)),
            None => None,
        }
    } else {
        None
    }
}

/// The member `"w":` followed by a string and a comma.
pub open spec fn text_member(w: Word, t: Seq<char>) -> Seq<u8> {
    key(word(w)) + enc_text(t) + seq![COMMA]
}

/// The member `"w":` followed by an optional number and a comma.
pub open spec fn number_member(w: Word, v: Option<u64>) -> Seq<u8> {
    key(word(w)) + enc_opt_number(v) + seq![COMMA]
}

/// A job listing entry as JSON text: an object of its five fields, in order.
pub open spec fn enc_info(v: JobInfoView) -> Seq<u8> {
    seq![OPEN_BRACE] + text_member(Word::Id, v.id) + text_member(Word::Cron, v.cron)
        + number_member(Word::LastRun, v.last_run) + number_member(Word::NextRun, v.next_run) + key(
        word(Word::Job),
    ) + enc_job(v.job) + seq![CLOSE_BRACE]
}

/// The optional number after the key `w`, followed by a comma.
#[verifier::opaque]
pub open spec fn number_member_at(b: Seq<u8>, i: int, w: Word) -> Option<(Option<u64>, int)> {
    match skip(b, i, key(word(w))) {
        Some(j) => match opt_number_at(b, j) {
            Some((v, k)) => match skip(b, k, seq![COMMA]) {
                Some(m) => Some((v, m)),
                None => None,
            },
            None => None,
        },
        None => None,
    }
}

/// The string after the key `w`, followed by a comma.
#[verifier::opaque]
pub open spec fn text_member_at(b: Seq<u8>, i: int, w: Word) -> Option<(Seq<char>, int)> {
    match skip(b, i, key(word(w))) {
        Some(j) => text_then(b, j, COMMA),
        None => None,
    }
}

/// The job listing entry whose JSON text starts at `i`, and the position after it.
pub open spec fn info_at(b: Seq<u8>, i: int) -> Option<(JobInfoView, int)> {
    match skip(b, i, seq![OPEN_BRACE]) {
        Some(i1) => match text_member_at(b, i1, Word::Id) {
            Some((id, i2)) => match text_member_at(b, i2, Word::Cron) {
                Some((cron, i3)) => match number_member_at(b, i3, Word::LastRun) {
                    Some((last, i4)) => match number_member_at(b, i4, Word::NextRun) {
                        Some((next, i5)) => match skip(b, i5, key(word(Word::Job))) {
                            Some(i6) => match job_at(b, i6) {
                                Some((job, i7)) => match skip(b, i7, seq![CLOSE_BRACE]) {
                                    Some(i8) => Some(
                                        (
                                            JobInfoView {
                                                id,
                                                cron,
                                                last_run: last,
                                                next_run: next,
                                                job,
                                            },
                                            i8,
                                        ),
                                    ),
                                    None => None,
                                },
                                None => None,
                            },
                            None => None,
                        },
                        None => None,
                    },
                    None => None,
                },
                None => None,
            },
            None => None,
        },
        None => None,
    }
}

proof fn lemma_text_member_round_trip(b: Seq<u8>, i: int, w: Word, s: Seq<char>)
    requires
        holds_at(b, i, text_member(w, s)),
    ensures
        text_member_at(b, i, w) == Some((s, i + key(word(w)).len() + enc_text(s).len() + 1)),
{
    reveal(text_member_at);
    assert(key(word(w)) + enc_text(s) + seq![COMMA] =~= key(word(w)) + (enc_text(s) + seq![COMMA]));
    lemma_holds_at_concat(b, i, key(word(w)), enc_text(s) + seq![COMMA]);
    lemma_text_then_round_trip(b, i + key(word(w)).len(), s, COMMA);
}

proof fn lemma_number_member_round_trip(b: Seq<u8>, i: int, w: Word, v: Option<u64>)
    requires
        holds_at(b, i, number_member(w, v)),
    ensures
        number_member_at(b, i, w) == Some(
            (v, i + key(word(w)).len() + enc_opt_number(v).len() + 1),
        ),
{
    reveal(number_member_at);
    let j = i + key(word(w)).len();
    lemma_holds_at_concat(b, i, key(word(w)) + enc_opt_number(v), seq![COMMA]);
    lemma_holds_at_concat(b, i, key(word(w)), enc_opt_number(v));
    lemma_holds_at_index(b, j + enc_opt_number(v).len(), seq![COMMA], 0);
    lemma_opt_number_round_trip(b, j, v);
}

/// Decoding the JSON text of a job listing entry gives the entry back.
#[verifier::spinoff_prover]
pub proof fn lemma_info_round_trip(b: Seq<u8>, i: int, v: JobInfoView)
    requires
        holds_at(b, i, enc_info(v)),
    ensures
        info_at(b, i) == Some((v, i + enc_info(v).len())),
{
    let m1 = text_member(Word::Id, v.id);
    let m2 = text_member(Word::Cron, v.cron);
    let m3 = number_member(Word::LastRun, v.last_run);
    let m4 = number_member(Word::NextRun, v.next_run);
    let q0 = seq![OPEN_BRACE];
    let q1 = q0 + m1;
    let q2 = q1 + m2;
    let q3 = q2 + m3;
    let q4 = q3 + m4;
    let q5 = q4 + key(word(Word::Job));
    let q6 = q5 + enc_job(v.job);
    lemma_holds_at_concat(b, i, q6, seq![CLOSE_BRACE]);
    lemma_holds_at_concat(b, i, q5, enc_job(v.job));
    lemma_holds_at_concat(b, i, q4, key(word(Word::Job)));
    lemma_holds_at_concat(b, i, q3, m4);
    lemma_holds_at_concat(b, i, q2, m3);
    lemma_holds_at_concat(b, i, q1, m2);
    lemma_holds_at_concat(b, i, q0, m1);
    lemma_text_member_round_trip(b, i + q0.len(), Word::Id, v.id);
    lemma_text_member_round_trip(b, i + q1.len(), Word::Cron, v.cron);
    lemma_number_member_round_trip(b, i + q2.len(), Word::LastRun, v.last_run);
    lemma_number_member_round_trip(b, i + q3.len(), Word::NextRun, v.next_run);
    lemma_job_round_trip(b, i + q5.len(), v.job);
}

fn read_text_member(b: &[u8], i: usize, w: Word) -> (r: Option<(String, usize)>)
    ensures
        match r {
            Some((s, j)) => text_member_at(b@, i as int, w) == Some((s@, j as int)),
            None => text_member_at(b@, i as int, w) is None,
        },
{
    proof {
        reveal(text_member_at);
    }
    match expect_key(b, i, w) {
        Some(j) => read_text_then(b, j, COMMA),
        None => None,
    }
}

fn read_number_member(b: &[u8], i: usize, w: Word) -> (r: Option<(Option<u64>, usize)>)
    ensures
        match r {
            Some((v, j)) => number_member_at(b@, i as int, w) == Some((v, j as int)),
            None => number_member_at(b@, i as int, w) is None,
        },
{
    proof {
        reveal(number_member_at);
    }
    match expect_key(b, i, w) {
        Some(j) => match read_opt_number(b, j) {
            Some((v, k)) => match expect_byte(b, k, COMMA) {
                Some(m) => Some((v, m)),
                None => None,
            },
            None => None,
        },
        None => None,
    }
}

fn push_text_member(out: &mut Vec<u8>, w: Word, t: &String)
    ensures
        final(out)@ == old(out)@ + text_member(w, t@),
{
    push_key(out, w);
    push_text(out, t.as_str());
    out.push(COMMA);
    proof {
        assert(final(out)@ =~= old(out)@ + text_member(w, t@));
    }
}

fn push_number_member(out: &mut Vec<u8>, w: Word, v: Option<u64>)
    ensures
        final(out)@ == old(out)@ + number_member(w, v),
{
    push_key(out, w);
    push_opt_number(out, v);
    out.push(COMMA);
    proof {
        assert(final(out)@ =~= old(out)@ + number_member(w, v));
    }
}

/// Appends the JSON text of a job listing entry.
pub fn push_info(out: &mut Vec<u8>, v: &JobInfo)
    ensures
        final(out)@ == old(out)@ + enc_info(v@),
{
    let ghost o = out@;
    out.push(OPEN_BRACE);
    push_text_member(out, Word::Id, &v.id);
    push_text_member(out, Word::Cron, &v.cron);
    push_number_member(out, Word::LastRun, v.last_run);
    push_number_member(out, Word::NextRun, v.next_run);
    let ghost before_job = out@;
    push_key(out, Word::Job);
    push_job(out, &v.job);
    out.push(CLOSE_BRACE);
    proof {
        let q4 = seq![OPEN_BRACE] + text_member(Word::Id, v.id@) + text_member(Word::Cron, v.cron@)
            + number_member(Word::LastRun, v.last_run) + number_member(Word::NextRun, v.next_run);
        assert(before_job =~= o + q4);
        assert(final(out)@ =~= o + enc_info(v@));
    }
}

/// The job listing entry whose JSON text starts at `i`, and the position after it.
pub fn read_info(b: &[u8], i: usize) -> (r: Option<(JobInfo, usize)>)
    ensures
        match r {
            Some((v, k)) => info_at(b@, i as int) == Some((v@, k as int)),
            None => info_at(b@, i as int) is None,
        },
{
    let i1 = match expect_byte(b, i, OPEN_BRACE) {
        Some(x) => x,
        None => return None,
    };
    let (id, i2) = match read_text_member(b, i1, Word::Id) {
        Some(x) => x,
        None => return None,
    };
    let (cron, i3) = match read_text_member(b, i2, Word::Cron) {
        Some(x) => x,
        None => return None,
    };
    let (last_run, i4) = match read_number_member(b, i3, Word::LastRun) {
        Some(x) => x,
        None => return None,
    };
    let (next_run, i5) = match read_number_member(b, i4, Word::NextRun) {
        Some(x) => x,
        None => return None,
    };
    let i6 = match expect_key(b, i5, Word::Job) {
        Some(x) => x,
        None => return None,
    };
    let (job, i7) = match read_job(b, i6) {
        Some(x) => x,
        None => return None,
    };
    match expect_byte(b, i7, CLOSE_BRACE) {
        Some(i8) => Some((JobInfo { id, cron, last_run, next_run, job }, i8)),
        None => None,
    }
}

/// The views of a list of entries.
pub open spec fn info_views(v: Seq<JobInfo>) -> Seq<JobInfoView> {
    v.map_values(|x: JobInfo| x@)
}

/// The encoded elements of a list of entries.
pub open spec fn info_elems(vs: Seq<JobInfoView>) -> Seq<Seq<u8>> {
    vs.map_values(|v: JobInfoView| enc_info(v))
}

/// A list of job listing entries as a JSON array.
pub open spec fn enc_infos(vs: Seq<JobInfoView>) -> Seq<u8> {
    enc_array(info_elems(vs))
}

/// The entries of the non-empty array body that starts at `j`, and the
/// position after the closing bracket.
#[verifier::opaque]
pub open spec fn info_items_at(b: Seq<u8>, j: int) -> Option<(Seq<JobInfoView>, int)>
    decreases b.len() - j,
{
    match info_at(b, j) {
        Some((t, k)) => if k <= j {
            None
        } else if holds_at(b, k, seq![COMMA]) {
            match info_items_at(b, k + 1) {
                Some((ts, m)) => Some((seq![t] + ts, m)),
                None => None,
            }
        } else if holds_at(b, k, seq![CLOSE_BRACKET]) {
            Some((seq![t], k + 1))
        } else {
            None
        },
        None => None,
    }
}

/// The list of entries whose JSON array starts at `i`, and the position after it.
pub open spec fn infos_at(b: Seq<u8>, i: int) -> Option<(Seq<JobInfoView>, int)> {
    if holds_at(b, i, seq![OPEN_BRACKET]) {
        if holds_at(b, i + 1, seq![CLOSE_BRACKET]) {
            Some((Seq::empty(), i + 2))
        } else {
            info_items_at(b, i + 1)
        }
    } else {
        None
    }
}

proof fn lemma_info_items_round_trip(b: Seq<u8>, j: int, ts: Seq<JobInfoView>)
    requires
        ts.len() > 0,
        holds_at(b, j, join(info_elems(ts)) + seq![CLOSE_BRACKET]),
    ensures
        info_items_at(b, j) == Some((ts, j + join(info_elems(ts)).len() + 1)),
    decreases ts.len(),
{
    reveal(info_items_at);
    let es = info_elems(ts);
    let t = ts[0];
    let e = enc_info(t);
    assert(es[0] == e);
    assert(e.len() > 0);
    if ts.len() == 1 {
        lemma_holds_at_concat(b, j, e, seq![CLOSE_BRACKET]);
        lemma_info_round_trip(b, j, t);
        lemma_holds_at_index(b, j + e.len(), seq![CLOSE_BRACKET], 0);
        assert(!holds_at(b, j + e.len(), seq![COMMA])) by {
            if holds_at(b, j + e.len(), seq![COMMA]) {
                lemma_holds_at_index(b, j + e.len(), seq![COMMA], 0);
            }
        }
        assert(seq![t] =~= ts);
    } else {
        let rest = ts.drop_first();
        assert(es.drop_first() =~= info_elems(rest));
        let tail = join(info_elems(rest)) + seq![CLOSE_BRACKET];
        assert(join(es) + seq![CLOSE_BRACKET] =~= e + (seq![COMMA] + tail));
        lemma_holds_at_concat(b, j, e, seq![COMMA] + tail);
        lemma_holds_at_concat(b, j + e.len(), seq![COMMA], tail);
        lemma_info_round_trip(b, j, t);
        lemma_info_items_round_trip(b, j + e.len() + 1, rest);
        assert(seq![t] + rest =~= ts);
    }
}

/// Decoding the JSON array of a list of entries gives the list back.
pub proof fn lemma_infos_round_trip(b: Seq<u8>, i: int, ts: Seq<JobInfoView>)
    requires
        holds_at(b, i, enc_infos(ts)),
    ensures
        infos_at(b, i) == Some((ts, i + enc_infos(ts).len())),
{
    let es = info_elems(ts);
    assert(enc_infos(ts) =~= seq![OPEN_BRACKET] + (join(es) + seq![CLOSE_BRACKET]));
    lemma_holds_at_concat(b, i, seq![OPEN_BRACKET], join(es) + seq![CLOSE_BRACKET]);
    if ts.len() == 0 {
        assert(join(es) + seq![CLOSE_BRACKET] =~= seq![CLOSE_BRACKET]);
    } else {
        assert(es[0] == enc_info(ts[0]));
        assert(enc_info(ts[0])[0] == OPEN_BRACE);
        assert(join(es).len() > 0 && join(es)[0] == OPEN_BRACE) by {
            if ts.len() == 1 {
                assert(join(es) == es[0]);
            } else {
                assert(join(es) == es[0] + seq![COMMA] + join(es.drop_first()));
            }
        }
        lemma_holds_at_concat(b, i + 1, join(es), seq![CLOSE_BRACKET]);
        lemma_holds_at_index(b, i + 1, join(es), 0);
        if holds_at(b, i + 1, seq![CLOSE_BRACKET]) {
            lemma_holds_at_index(b, i + 1, seq![CLOSE_BRACKET], 0);
        }
        lemma_info_items_round_trip(b, i + 1, ts);
    }
}

/// Appends the JSON array of a list of entries.
pub fn push_infos(out: &mut Vec<u8>, v: &Vec<JobInfo>)
    ensures
        final(out)@ == old(out)@ + enc_infos(info_views(v@)),
{
    let ghost ts = info_views(v@);
    out.push(OPEN_BRACKET);
    let mut k: usize = 0;
    while k < v.len()
        invariant
            k <= v@.len(),
            ts == info_views(v@),
            out@ == old(out)@ + seq![OPEN_BRACKET] + join(info_elems(ts.subrange(0, k as int))),
        decreases v.len() - k,
    {
        proof {
            assert(info_elems(ts.subrange(0, k + 1)) =~= info_elems(ts.subrange(0, k as int)).push(
                enc_info(v@[k as int]@),
            ));
            lemma_join_push(info_elems(ts.subrange(0, k as int)), enc_info(v@[k as int]@));
        }
        if k > 0 {
            out.push(COMMA);
        }
        push_info(out, &v[k]);
        k = k + 1;
    }
    out.push(CLOSE_BRACKET);
    proof {
        assert(ts.subrange(0, ts.len() as int) =~= ts);
        assert(final(out)@ =~= old(out)@ + enc_infos(ts));
    }
}

fn read_info_items(b: &[u8], j: usize) -> (r: Option<(Vec<JobInfo>, usize)>)
    ensures
        match r {
            Some((v, m)) => info_items_at(b@, j as int) == Some((info_views(v@), m as int)),
            None => info_items_at(b@, j as int) is None,
        },
    decreases b.len() - j,
{
    proof {
        reveal(info_items_at);
    }
    match read_info(b, j) {
        Some((t, k)) => {
            if k <= j {
                return None;
            }
            match expect_byte(b, k, COMMA) {
                Some(k1) => {
                    if k1 > b.len() {
                        return None;
                    }
                    match read_info_items(b, k1) {
                        Some((v, m)) => {
                            let mut v = v;
                            let ghost before = v@;
                            let ghost tv = t@;
                            v.insert(0, t);
                            proof {
                                assert(info_views(v@) =~= seq![tv] + info_views(before));
                            }
                            Some((v, m))
                        },
                        None => None,
                    }
                },
                None => match expect_byte(b, k, CLOSE_BRACKET) {
                    Some(k1) => {
                        let ghost tv = t@;
                        let mut v: Vec<JobInfo> = Vec::new();
                        v.push(t);
                        proof {
                            assert(info_views(v@) =~= seq![tv]);
                        }
                        Some((v, k1))
                    },
                    None => None,
                },
            }
        },
        None => None,
    }
}

/// The list of entries whose JSON array starts at `i`, and the position after it.
pub fn read_infos(b: &[u8], i: usize) -> (r: Option<(Vec<JobInfo>, usize)>)
    ensures
        match r {
            Some((v, m)) => infos_at(b@, i as int) == Some((info_views(v@), m as int)),
            None => infos_at(b@, i as int) is None,
        },
{
    match expect_byte(b, i, OPEN_BRACKET) {
        Some(j) => match expect_byte(b, j, CLOSE_BRACKET) {
            Some(k) => {
                let v: Vec<JobInfo> = Vec::new();
                proof {
                    assert(info_views(v@) =~= Seq::<JobInfoView>::empty());
                }
                Some((v, k))
            },
            None => read_info_items(b, j),
        },
        None => None,
    }
}

/// A request as JSON text: a variant without fields as its quoted name, one
/// with fields as an object keyed by its name, holding an object of its fields.
pub open spec fn enc_command(c: CommandView) -> Seq<u8> {
    match c {
        CommandView::AddJob { cron, job } => open_tag(Word::AddJob) + seq![OPEN_BRACE] + text_member(
            Word::Cron,
            cron,
        ) + key(word(Word::Job)) + enc_job(job) + seq![CLOSE_BRACE] + seq![CLOSE_BRACE],
        CommandView::ListJobs => quoted(word(Word::ListJobs)),
        CommandView::DeleteJob { id } => open_tag(Word::DeleteJob) + seq![OPEN_BRACE] + key(
            word(Word::Id),
        ) + enc_text(id) + seq![CLOSE_BRACE] + seq![CLOSE_BRACE],
        CommandView::StopService => quoted(word(Word::StopService)),
        CommandView::PingService => quoted(word(Word::PingService)),
    }
}

/// The request whose JSON text starts at `i`, and the position after it.
#[verifier::opaque]
pub open spec fn command_at(b: Seq<u8>, i: int) -> Option<(CommandView, int)> {
    match name_at(b, i) {
        Some((n, j)) => if n == word(Word::ListJobs) {
            Some((CommandView::ListJobs, j))
        } else if n == word(Word::StopService) {
            Some((CommandView::StopService, j))
        } else if n == word(Word::PingService) {
            Some((CommandView::PingService, j))
        } else {
            None
        },
        None => match tag_at(b, i) {
            Some((n, j)) => match skip(b, j, seq![OPEN_BRACE]) {
                Some(j1) => if n == word(Word::AddJob) {
                    match text_member_at(b, j1, Word::Cron) {
                        Some((cron, j2)) => match skip(b, j2, key(word(Word::Job))) {
                            Some(j3) => match job_at(b, j3) {
                                Some((job, j4)) => match skip(b, j4, seq![CLOSE_BRACE]) {
                                    Some(j5) => match skip(b, j5, seq![CLOSE_BRACE]) {
                                        Some(j6) => Some((CommandView::AddJob { cron, job }, j6)),
                                        None => None,
                                    },
                                    None => None,
                                },
                                None => None,
                            },
                            None => None,
                        },
                        None => None,
                    }
                } else if n == word(Word::DeleteJob) {
                    match skip(b, j1, key(word(Word::Id))) {
                        Some(j2) => match text_then(b, j2, CLOSE_BRACE) {
                            Some((id, j3)) => match skip(b, j3, seq![CLOSE_BRACE]) {
                                Some(j4) => Some((CommandView::DeleteJob { id }, j4)),
                                None => None,
                            },
                            None => None,
                        },
                        None => None,
                    }
                } else {
                    None
                },
                None => None,
            },
            None => None,
        },
    }
}

/// The request that a whole frame holds, if it holds one.
pub open spec fn decode_command(b: Seq<u8>) -> Option<CommandView> {
    match command_at(b, 0) {
        Some((c, j)) => if j == b.len() {
            Some(c)
        } else {
            None
        },
        None => None,
    }
}

proof fn lemma_no_name_at_brace(b: Seq<u8>, i: int)
    requires
        0 <= i < b.len(),
        b[i] == OPEN_BRACE,
    ensures
        name_at(b, i) is None,
{
    if holds_at(b, i, seq![QUOTE]) {
        lemma_holds_at_index(b, i, seq![QUOTE], 0);
    }
}

#[verifier::spinoff_prover]
proof fn lemma_add_job_round_trip(b: Seq<u8>, i: int, cron: Seq<char>, job: JobView)
    requires
        holds_at(b, i, enc_command(CommandView::AddJob { cron, job })),
    ensures
        command_at(b, i) == Some(
            (
                CommandView::AddJob { cron, job },
                i + enc_command(CommandView::AddJob { cron, job }).len(),
            ),
        ),
{
    reveal(command_at);
    let q1 = open_tag(Word::AddJob);
    let q2 = q1 + seq![OPEN_BRACE];
    let q3 = q2 + text_member(Word::Cron, cron);
    let q4 = q3 + key(word(Word::Job));
    let q5 = q4 + enc_job(job);
    let q6 = q5 + seq![CLOSE_BRACE];
    lemma_holds_at_concat(b, i, q6, seq![CLOSE_BRACE]);
    lemma_holds_at_concat(b, i, q5, seq![CLOSE_BRACE]);
    lemma_holds_at_concat(b, i, q4, enc_job(job));
    lemma_holds_at_concat(b, i, q3, key(word(Word::Job)));
    lemma_holds_at_concat(b, i, q2, text_member(Word::Cron, cron));
    lemma_holds_at_concat(b, i, q1, seq![OPEN_BRACE]);
    lemma_holds_at_concat(b, i, seq![OPEN_BRACE], key(word(Word::AddJob)));
    lemma_holds_at_index(b, i, seq![OPEN_BRACE], 0);
    lemma_no_name_at_brace(b, i);
    lemma_tag_round_trip(b, i, Word::AddJob);
    lemma_text_member_round_trip(b, i + q2.len(), Word::Cron, cron);
    lemma_job_round_trip(b, i + q4.len(), job);
}

#[verifier::spinoff_prover]
proof fn lemma_delete_job_round_trip(b: Seq<u8>, i: int, id: Seq<char>)
    requires
        holds_at(b, i, enc_command(CommandView::DeleteJob { id })),
    ensures
        command_at(b, i) == Some(
            (CommandView::DeleteJob { id }, i + enc_command(CommandView::DeleteJob { id }).len()),
        ),
{
    reveal(command_at);
    let q1 = open_tag(Word::DeleteJob);
    let q2 = q1 + seq![OPEN_BRACE];
    let q3 = q2 + key(word(Word::Id));
    let q4 = q3 + enc_text(id);
    let q5 = q4 + seq![CLOSE_BRACE];
    lemma_holds_at_concat(b, i, q5, seq![CLOSE_BRACE]);
    lemma_holds_at_concat(b, i, q3, enc_text(id) + seq![CLOSE_BRACE]);
    assert(q5 == q3 + (enc_text(id) + seq![CLOSE_BRACE]));
    lemma_holds_at_concat(b, i, q2, key(word(Word::Id)));
    lemma_holds_at_concat(b, i, q1, seq![OPEN_BRACE]);
    lemma_holds_at_concat(b, i, seq![OPEN_BRACE], key(word(Word::DeleteJob)));
    lemma_holds_at_index(b, i, seq![OPEN_BRACE], 0);
    lemma_no_name_at_brace(b, i);
    lemma_tag_round_trip(b, i, Word::DeleteJob);
    lemma_text_then_round_trip(b, i + q3.len(), id, CLOSE_BRACE);
    assert(word(Word::DeleteJob) != word(Word::AddJob));
}

#[verifier::spinoff_prover]
proof fn lemma_unit_command_round_trip(b: Seq<u8>, i: int, c: CommandView)
    requires
        c is ListJobs || c is StopService || c is PingService,
        holds_at(b, i, enc_command(c)),
    ensures
        command_at(b, i) == Some((c, i + enc_command(c).len())),
{
    reveal(command_at);
    let w = match c {
        CommandView::ListJobs => Word::ListJobs,
        CommandView::StopService => Word::StopService,
        _ => Word::PingService,
    };
    lemma_name_round_trip(b, i, w);
    assert(word(Word::StopService) != word(Word::ListJobs));
    assert(word(Word::PingService) != word(Word::ListJobs));
    assert(word(Word::PingService)[0] != word(Word::StopService)[0]);
}

/// Decoding the frame of a request gives the request back.
pub proof fn lemma_request_round_trip(c: CommandView)
    ensures
        decode_command(enc_command(c)) == Some(c),
{
    let b = enc_command(c);
    assert(b.subrange(0, b.len() as int) =~= b);
    match c {
        CommandView::AddJob { cron, job } => lemma_add_job_round_trip(b, 0, cron, job),
        CommandView::DeleteJob { id } => lemma_delete_job_round_trip(b, 0, id),
        _ => lemma_unit_command_round_trip(b, 0, c),
    }
}

/// Appends the JSON text of a request.
pub fn push_command(out: &mut Vec<u8>, c: &Command)
    ensures
        final(out)@ == old(out)@ + enc_command(c@),
{
    let ghost o = out@;
    match c {
        Command::AddJob { cron, job } => {
            push_open_tag(out, Word::AddJob);
            out.push(OPEN_BRACE);
            push_text_member(out, Word::Cron, cron);
            push_key(out, Word::Job);
            push_job(out, job);
            out.push(CLOSE_BRACE);
            out.push(CLOSE_BRACE);
        },
        Command::ListJobs => push_quoted(out, Word::ListJobs),
        Command::DeleteJob { id } => {
            push_open_tag(out, Word::DeleteJob);
            out.push(OPEN_BRACE);
            push_key(out, Word::Id);
            push_text(out, id.as_str());
            out.push(CLOSE_BRACE);
            out.push(CLOSE_BRACE);
        },
        Command::StopService => push_quoted(out, Word::StopService),
        Command::PingService => push_quoted(out, Word::PingService),
    }
    proof {
        assert(final(out)@ =~= o + enc_command(c@));
    }
}

/// The request whose JSON text starts at `i`, and the position after it.
pub fn read_command(b: &[u8], i: usize) -> (r: Option<(Command, usize)>)
    ensures
        match r {
            Some((c, k)) => command_at(b@, i as int) == Some((c@, k as int)),
            None => command_at(b@, i as int) is None,
        },
{
    proof {
        reveal(command_at);
    }
    match read_name(b, i) {
        Some((n, j)) => {
            if is_word(&n, Word::ListJobs) {
                return Some((Command::ListJobs, j));
            } else if is_word(&n, Word::StopService) {
                return Some((Command::StopService, j));
            } else if is_word(&n, Word::PingService) {
                return Some((Command::PingService, j));
            } else {
                return None;
            }
        },
        None => {},
    }
    let (n, j) = match read_tag(b, i) {
        Some(x) => x,
        None => return None,
    };
    let j1 = match expect_byte(b, j, OPEN_BRACE) {
        Some(x) => x,
        None => return None,
    };
    if is_word(&n, Word::AddJob) {
        let (cron, j2) = match read_text_member(b, j1, Word::Cron) {
            Some(x) => x,
            None => return None,
        };
        let j3 = match expect_key(b, j2, Word::Job) {
            Some(x) => x,
            None => return None,
        };
        let (job, j4) = match read_job(b, j3) {
            Some(x) => x,
            None => return None,
        };
        let j5 = match expect_byte(b, j4, CLOSE_BRACE) {
            Some(x) => x,
            None => return None,
        };
        match expect_byte(b, j5, CLOSE_BRACE) {
            Some(j6) => Some((Command::AddJob { cron, job }, j6)),
            None => None,
        }
    } else if is_word(&n, Word::DeleteJob) {
        let j2 = match expect_key(b, j1, Word::Id) {
            Some(x) => x,
            None => return None,
        };
        let (id, j3) = match read_text_then(b, j2, CLOSE_BRACE) {
            Some(x) => x,
            None => return None,
        };
        match expect_byte(b, j3, CLOSE_BRACE) {
            Some(j4) => Some((Command::DeleteJob { id }, j4)),
            None => None,
        }
    } else {
        None
    }
}

/// The word that names an error kind.
pub open spec fn kind_word(k: ErrorKind) -> Word {
    match k {
        ErrorKind::BadCron => Word::BadCron,
        ErrorKind::BadId => Word::BadId,
        ErrorKind::UnknownJob => Word::UnknownJob,
        ErrorKind::Malformed => Word::Malformed,
    }
}

/// The word that names a reply variant without fields.
pub open spec fn unit_word(r: CommandResponseView) -> Word {
    match r {
        CommandResponseView::JobDeleted => Word::JobDeleted,
        CommandResponseView::ServiceRunning => Word::ServiceRunning,
        CommandResponseView::ServiceStopping => Word::ServiceStopping,
        CommandResponseView::ServiceStopped => Word::ServiceStopped,
        CommandResponseView::ServiceNotRunning => Word::ServiceNotRunning,
        _ => Word::Nothing,
    }
}

/// Whether a reply variant has no fields.
pub open spec fn is_unit_response(r: CommandResponseView) -> bool {
    !(r is JobAdded || r is JobList || r is Error)
}

/// A reply as JSON text, in the same layout as a request.
pub open spec fn enc_response(r: CommandResponseView) -> Seq<u8> {
    match r {
        CommandResponseView::JobAdded(id) => open_tag(Word::JobAdded) + enc_text(id) + seq![
            CLOSE_BRACE,
        ],
        CommandResponseView::JobList(vs) => open_tag(Word::JobList) + enc_infos(vs) + seq![
            CLOSE_BRACE,
        ],
        CommandResponseView::Error(k, m) => open_tag(Word::Error) + seq![OPEN_BRACKET] + quoted(
            word(kind_word(k)),
        ) + seq![COMMA] + enc_text(m) + seq![CLOSE_BRACKET] + seq![CLOSE_BRACE],
        _ => quoted(word(unit_word(r))),
    }
}

/// The error kind that a name stands for.
pub open spec fn kind_of(n: Seq<u8>) -> Option<ErrorKind> {
    if n == word(Word::BadCron) {
        Some(ErrorKind::BadCron)
    } else if n == word(Word::BadId) {
        Some(ErrorKind::BadId)
    } else if n == word(Word::UnknownJob) {
        Some(ErrorKind::UnknownJob)
    } else if n == word(Word::Malformed) {
        Some(ErrorKind::Malformed)
    } else {
        None
    }
}

/// The reply variant without fields that a name stands for.
pub open spec fn unit_of(n: Seq<u8>) -> Option<CommandResponseView> {
    if n == word(Word::JobDeleted) {
        Some(CommandResponseView::JobDeleted)
    } else if n == word(Word::ServiceRunning) {
        Some(CommandResponseView::ServiceRunning)
    } else if n == word(Word::ServiceStopping) {
        Some(CommandResponseView::ServiceStopping)
    } else if n == word(Word::ServiceStopped) {
        Some(CommandResponseView::ServiceStopped)
    } else if n == word(Word::ServiceNotRunning) {
        Some(CommandResponseView::ServiceNotRunning)
    } else if n == word(Word::Nothing) {
        Some(CommandResponseView::Nothing)
    } else {
        None
    }
}

/// The error reply whose fields start at `j`, just after `{"Error":`.
#[verifier::opaque]
pub open spec fn error_fields_at(b: Seq<u8>, j: int) -> Option<(CommandResponseView, int)> {
    match skip(b, j, seq![OPEN_BRACKET]) {
        Some(j1) => match name_at(b, j1) {
            Some((n, j2)) => match kind_of(n) {
                Some(k) => match skip(b, j2, seq![COMMA]) {
                    Some(j3) => match text_then(b, j3, CLOSE_BRACKET) {
                        Some((m, j4)) => match skip(b, j4, seq![CLOSE_BRACE]) {
                            Some(j5) => Some((CommandResponseView::Error(k, m), j5)),
                            None => None,
                        },
                        None => None,
                    },
                    None => None,
                },
                None => None,
            },
            None => None,
        },
        None => None,
    }
}

/// The reply whose JSON text starts at `i`, and the position after it.
#[verifier::opaque]
pub open spec fn response_at(b: Seq<u8>, i: int) -> Option<(CommandResponseView, int)> {
    match name_at(b, i) {
        Some((n, j)) => match unit_of(n) {
            Some(r) => Some((r, j)),
            None => None,
        },
        None => match tag_at(b, i) {
            Some((n, j)) => if n == word(Word::JobAdded) {
                match text_then(b, j, CLOSE_BRACE) {
                    Some((id, k)) => Some((CommandResponseView::JobAdded(id), k)),
                    None => None,
                }
            } else if n == word(Word::JobList) {
                match infos_at(b, j) {
                    Some((vs, k)) => match skip(b, k, seq![CLOSE_BRACE]) {
                        Some(m) => Some((CommandResponseView::JobList(vs), m)),
                        None => None,
                    },
                    None => None,
                }
            } else if n == word(Word::Error) {
                error_fields_at(b, j)
            } else {
                None
            },
            None => None,
        },
    }
}

/// The reply that a whole frame holds, if it holds one.
pub open spec fn decode_response(b: Seq<u8>) -> Option<CommandResponseView> {
    match response_at(b, 0) {
        Some((r, j)) => if j == b.len() {
            Some(r)
        } else {
            None
        },
        None => None,
    }
}

proof fn lemma_kind_names(k: ErrorKind)
    ensures
        kind_of(word(kind_word(k))) == Some(k),
{
}

proof fn lemma_unit_names(r: CommandResponseView)
    requires
        is_unit_response(r),
    ensures
        unit_of(word(unit_word(r))) == Some(r),
{
    assert(word(Word::ServiceStopped)[7] != word(Word::ServiceRunning)[7]);
}

#[verifier::spinoff_prover]
proof fn lemma_error_round_trip(b: Seq<u8>, i: int, k: ErrorKind, m: Seq<char>)
    requires
        holds_at(b, i, enc_response(CommandResponseView::Error(k, m))),
    ensures
        response_at(b, i) == Some(
            (
                CommandResponseView::Error(k, m),
                i + enc_response(CommandResponseView::Error(k, m)).len(),
            ),
        ),
{
    reveal(response_at);
    reveal(error_fields_at);
    let q1 = open_tag(Word::Error);
    let q2 = q1 + seq![OPEN_BRACKET];
    let q3 = q2 + quoted(word(kind_word(k)));
    let q4 = q3 + seq![COMMA];
    let q5 = q4 + enc_text(m);
    let q6 = q5 + seq![CLOSE_BRACKET];
    lemma_holds_at_concat(b, i, q6, seq![CLOSE_BRACE]);
    lemma_holds_at_concat(b, i, q4, enc_text(m) + seq![CLOSE_BRACKET]);
    assert(q6 == q4 + (enc_text(m) + seq![CLOSE_BRACKET]));
    lemma_holds_at_concat(b, i, q3, seq![COMMA]);
    lemma_holds_at_concat(b, i, q2, quoted(word(kind_word(k))));
    lemma_holds_at_concat(b, i, q1, seq![OPEN_BRACKET]);
    lemma_holds_at_concat(b, i, seq![OPEN_BRACE], key(word(Word::Error)));
    lemma_holds_at_index(b, i, seq![OPEN_BRACE], 0);
    lemma_no_name_at_brace(b, i);
    lemma_tag_round_trip(b, i, Word::Error);
    lemma_name_round_trip(b, i + q2.len(), kind_word(k));
    lemma_kind_names(k);
    lemma_text_then_round_trip(b, i + q4.len(), m, CLOSE_BRACKET);
    assert(word(Word::Error) != word(Word::JobAdded));
    assert(word(Word::Error) != word(Word::JobList));
}

#[verifier::spinoff_prover]
proof fn lemma_job_added_round_trip(b: Seq<u8>, i: int, id: Seq<char>)
    requires
        holds_at(b, i, enc_response(CommandResponseView::JobAdded(id))),
    ensures
        response_at(b, i) == Some(
            (
                CommandResponseView::JobAdded(id),
                i + enc_response(CommandResponseView::JobAdded(id)).len(),
            ),
        ),
{
    reveal(response_at);
    let q1 = open_tag(Word::JobAdded);
    assert(enc_response(CommandResponseView::JobAdded(id)) =~= q1 + (enc_text(id) + seq![
        CLOSE_BRACE,
    ]));
    lemma_holds_at_concat(b, i, q1, enc_text(id) + seq![CLOSE_BRACE]);
    lemma_holds_at_concat(b, i, seq![OPEN_BRACE], key(word(Word::JobAdded)));
    lemma_holds_at_index(b, i, seq![OPEN_BRACE], 0);
    lemma_no_name_at_brace(b, i);
    lemma_tag_round_trip(b, i, Word::JobAdded);
    lemma_text_then_round_trip(b, i + q1.len(), id, CLOSE_BRACE);
}

#[verifier::spinoff_prover]
proof fn lemma_job_list_round_trip(b: Seq<u8>, i: int, vs: Seq<JobInfoView>)
    requires
        holds_at(b, i, enc_response(CommandResponseView::JobList(vs))),
    ensures
        response_at(b, i) == Some(
            (
                CommandResponseView::JobList(vs),
                i + enc_response(CommandResponseView::JobList(vs)).len(),
            ),
        ),
{
    reveal(response_at);
    let q1 = open_tag(Word::JobList);
    let q2 = q1 + enc_infos(vs);
    lemma_holds_at_concat(b, i, q2, seq![CLOSE_BRACE]);
    lemma_holds_at_concat(b, i, q1, enc_infos(vs));
    lemma_holds_at_concat(b, i, seq![OPEN_BRACE], key(word(Word::JobList)));
    lemma_holds_at_index(b, i, seq![OPEN_BRACE], 0);
    lemma_no_name_at_brace(b, i);
    lemma_tag_round_trip(b, i, Word::JobList);
    lemma_infos_round_trip(b, i + q1.len(), vs);
    assert(word(Word::JobList) != word(Word::JobAdded));
}

/// Decoding the frame of a reply gives the reply back.
pub proof fn lemma_response_round_trip(r: CommandResponseView)
    ensures
        decode_response(enc_response(r)) == Some(r),
{
    let b = enc_response(r);
    assert(b.subrange(0, b.len() as int) =~= b);
    match r {
        CommandResponseView::JobAdded(id) => lemma_job_added_round_trip(b, 0, id),
        CommandResponseView::JobList(vs) => lemma_job_list_round_trip(b, 0, vs),
        CommandResponseView::Error(k, m) => lemma_error_round_trip(b, 0, k, m),
        _ => {
            reveal(response_at);
            lemma_name_round_trip(b, 0, unit_word(r));
            lemma_unit_names(r);
        },
    }
}

fn kind_word_of(k: ErrorKind) -> (w: Word)
    ensures
        w == kind_word(k),
{
    match k {
        ErrorKind::BadCron => Word::BadCron,
        ErrorKind::BadId => Word::BadId,
        ErrorKind::UnknownJob => Word::UnknownJob,
        ErrorKind::Malformed => Word::Malformed,
    }
}

fn read_kind(n: &Vec<u8>) -> (r: Option<ErrorKind>)
    ensures
        r == kind_of(n@),
{
    if is_word(n, Word::BadCron) {
        Some(ErrorKind::BadCron)
    } else if is_word(n, Word::BadId) {
        Some(ErrorKind::BadId)
    } else if is_word(n, Word::UnknownJob) {
        Some(ErrorKind::UnknownJob)
    } else if is_word(n, Word::Malformed) {
        Some(ErrorKind::Malformed)
    } else {
        None
    }
}

fn read_unit(n: &Vec<u8>) -> (r: Option<CommandResponse>)
    ensures
        match r {
            Some(x) => unit_of(n@) == Some(x@),
            None => unit_of(n@) is None,
        },
{
    if is_word(n, Word::JobDeleted) {
        Some(CommandResponse::JobDeleted)
    } else if is_word(n, Word::ServiceRunning) {
        Some(CommandResponse::ServiceRunning)
    } else if is_word(n, Word::ServiceStopping) {
        Some(CommandResponse::ServiceStopping)
    } else if is_word(n, Word::ServiceStopped) {
        Some(CommandResponse::ServiceStopped)
    } else if is_word(n, Word::ServiceNotRunning) {
        Some(CommandResponse::ServiceNotRunning)
    } else if is_word(n, Word::Nothing) {
        Some(CommandResponse::Nothing)
    } else {
        None
    }
}

/// Appends the JSON text of a reply.
pub fn push_response(out: &mut Vec<u8>, r: &CommandResponse)
    ensures
        final(out)@ == old(out)@ + enc_response(r@),
{
    let ghost o = out@;
    match r {
        CommandResponse::JobAdded(id) => {
            push_open_tag(out, Word::JobAdded);
            push_text(out, id.as_str());
            out.push(CLOSE_BRACE);
        },
        CommandResponse::JobList(v) => {
            push_open_tag(out, Word::JobList);
            push_infos(out, v);
            out.push(CLOSE_BRACE);
        },
        CommandResponse::Error(k, m) => {
            push_open_tag(out, Word::Error);
            out.push(OPEN_BRACKET);
            push_quoted(out, kind_word_of(*k));
            out.push(COMMA);
            push_text(out, m.as_str());
            out.push(CLOSE_BRACKET);
            out.push(CLOSE_BRACE);
        },
        CommandResponse::JobDeleted => push_quoted(out, Word::JobDeleted),
        CommandResponse::ServiceRunning => push_quoted(out, Word::ServiceRunning),
        CommandResponse::ServiceStopping => push_quoted(out, Word::ServiceStopping),
        CommandResponse::ServiceStopped => push_quoted(out, Word::ServiceStopped),
        CommandResponse::ServiceNotRunning => push_quoted(out, Word::ServiceNotRunning),
        CommandResponse::Nothing => push_quoted(out, Word::Nothing),
    }
    proof {
        assert(final(out)@ =~= o + enc_response(r@));
    }
}

fn read_error_fields(b: &[u8], j: usize) -> (r: Option<(CommandResponse, usize)>)
    ensures
        match r {
            Some((x, k)) => error_fields_at(b@, j as int) == Some((x@, k as int)),
            None => error_fields_at(b@, j as int) is None,
        },
{
    proof {
        reveal(error_fields_at);
    }
    let j1 = match expect_byte(b, j, OPEN_BRACKET) {
        Some(x) => x,
        None => return None,
    };
    let (n, j2) = match read_name(b, j1) {
        Some(x) => x,
        None => return None,
    };
    let k = match read_kind(&n) {
        Some(x) => x,
        None => return None,
    };
    let j3 = match expect_byte(b, j2, COMMA) {
        Some(x) => x,
        None => return None,
    };
    let (m, j4) = match read_text_then(b, j3, CLOSE_BRACKET) {
        Some(x) => x,
        None => return None,
    };
    match expect_byte(b, j4, CLOSE_BRACE) {
        Some(j5) => Some((CommandResponse::Error(k, m), j5)),
        None => None,
    }
}

/// The reply whose JSON text starts at `i`, and the position after it.
pub fn read_response(b: &[u8], i: usize) -> (r: Option<(CommandResponse, usize)>)
    ensures
        match r {
            Some((x, k)) => response_at(b@, i as int) == Some((x@, k as int)),
            None => response_at(b@, i as int) is None,
        },
{
    proof {
        reveal(response_at);
    }
    match read_name(b, i) {
        Some((n, j)) => {
            return match read_unit(&n) {
                Some(x) => Some((x, j)),
                None => None,
            };
        },
        None => {},
    }
    let (n, j) = match read_tag(b, i) {
        Some(x) => x,
        None => return None,
    };
    if is_word(&n, Word::JobAdded) {
        match read_text_then(b, j, CLOSE_BRACE) {
            Some((id, k)) => Some((CommandResponse::JobAdded(id), k)),
            None => None,
        }
    } else if is_word(&n, Word::JobList) {
        match read_infos(b, j) {
            Some((v, k)) => match expect_byte(b, k, CLOSE_BRACE) {
                Some(m) => Some((CommandResponse::JobList(v), m)),
                None => None,
            },
            None => None,
        }
    } else if is_word(&n, Word::Error) {
        read_error_fields(b, j)
    } else {
        None
    }
}

} // verus!
