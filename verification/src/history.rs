use vstd::prelude::*;

use crate::text::views;

verus! {

/// How many recent files the history keeps.
pub const HISTORY_LIMIT: usize = 20;

/// `h` with every entry equal to `p` taken out, the rest in order.
pub open spec fn without(h: Seq<Seq<char>>, p: Seq<char>) -> Seq<Seq<char>>
    decreases h.len(),
{
    if h.len() == 0 {
        h
    } else {
        let w = without(h.drop_last(), p);
        if h.last() == p {
            w
        } else {
            w.push(h.last())
        }
    }
}

/// The history after `p` was opened or saved: `p` first, then the other
/// entries in their order, at most `HISTORY_LIMIT` in all.
pub open spec fn remembered(h: Seq<Seq<char>>, p: Seq<char>) -> Seq<Seq<char>> {
    let full = seq![p] + without(h, p);
    if full.len() <= HISTORY_LIMIT {
        full
    } else {
        full.take(HISTORY_LIMIT as int)
    }
}

/// Whether no entry occurs twice.
pub open spec fn distinct(h: Seq<Seq<char>>) -> bool {
    forall|i: int, j: int| 0 <= i < h.len() && 0 <= j < h.len() && i != j ==> h[i] != h[j]
}

/// Whether a file path is recorded in the history: an empty one is not.
pub fn is_recordable_path(filepath: &str) -> (r: bool)
    ensures
        r == (filepath@.len() > 0),
{
    !filepath.is_empty()
}

/// Puts `abs_path` at the front of the recent-file history, drops its older
/// occurrences and keeps the most recent `HISTORY_LIMIT` entries.
pub fn record_recent_file(history: Vec<String>, abs_path: String) -> (r: Vec<String>)
    ensures
        views(r@) == remembered(views(history@), abs_path@),
{
    let mut out: Vec<String> = Vec::new();
    let n = history.len();
    let mut i: usize = 0;
    let ghost h = views(history@);
    let ghost p = abs_path@;
    assert(h.take(0) == Seq::<Seq<char>>::empty());
    while i < n
        invariant
            i <= n,
            n == history.len(),
            h == views(history@),
            p == abs_path@,
            views(out@) == without(h.take(i as int), p),
        decreases n - i,
    {
        assert(h.take(i + 1).drop_last() == h.take(i as int));
        assert(h.take(i + 1).last() == history@[i as int]@);
        if history[i] != abs_path {
            let ghost before = out@;
            out.push(history[i].clone());
            assert(views(out@) =~= views(before).push(history@[i as int]@));
        }
        i += 1;
    }
    assert(h.take(n as int) == h);
    let mut r: Vec<String> = Vec::new();
    r.push(abs_path);
    let mut k: usize = 0;
    let ghost w = views(out@);
    assert(views(r@) =~= seq![p] + w.take(0));
    while k < out.len() && r.len() < HISTORY_LIMIT
        invariant
            k <= out.len(),
            r.len() == k + 1,
            r.len() <= HISTORY_LIMIT,
            w == views(out@),
            views(r@) == seq![p] + w.take(k as int),
        decreases out.len() - k,
    {
        let ghost before = r@;
        r.push(out[k].clone());
        assert(views(r@) =~= views(before).push(w[k as int]));
        assert(seq![p] + w.take(k + 1) =~= (seq![p] + w.take(k as int)).push(w[k as int]));
        k += 1;
    }
    proof {
        let full = seq![p] + w;
        if full.len() <= HISTORY_LIMIT {
            assert(k == out.len());
            assert(w.take(k as int) == w);
        } else {
            assert(k + 1 == HISTORY_LIMIT);
            assert(views(r@) =~= full.take(HISTORY_LIMIT as int));
        }
    }
    r
}

proof fn lemma_without_members(h: Seq<Seq<char>>, p: Seq<char>)
    ensures
        without(h, p).len() <= h.len(),
        forall|i: int| 0 <= i < without(h, p).len() ==> #[trigger] without(h, p)[i] != p,
        forall|i: int| 0 <= i < without(h, p).len() ==> h.contains(#[trigger] without(h, p)[i]),
    decreases h.len(),
{
    if h.len() > 0 {
        lemma_without_members(h.drop_last(), p);
        let w = without(h.drop_last(), p);
        assert forall|i: int| 0 <= i < without(h, p).len() implies h.contains(
            #[trigger] without(h, p)[i],
        ) by {
            if i < w.len() {
                let k = choose|k: int| 0 <= k < h.drop_last().len() && h.drop_last()[k] == w[i];
                assert(h[k] == w[i]);
            } else {
                assert(h[h.len() - 1] == h.last());
            }
        }
    }
}

proof fn lemma_without_absent(h: Seq<Seq<char>>, p: Seq<char>)
    requires
        forall|i: int| 0 <= i < h.len() ==> h[i] != p,
    ensures
        without(h, p) == h,
    decreases h.len(),
{
    if h.len() > 0 {
        lemma_without_absent(h.drop_last(), p);
        assert(h.drop_last().push(h.last()) == h);
    }
}

proof fn lemma_without_distinct(h: Seq<Seq<char>>, p: Seq<char>)
    requires
        distinct(h),
    ensures
        distinct(without(h, p)),
    decreases h.len(),
{
    if h.len() > 0 {
        let d = h.drop_last();
        assert(distinct(d)) by {
            assert forall|i: int, j: int|
                0 <= i < d.len() && 0 <= j < d.len() && i != j implies d[i] != d[j] by {
                assert(d[i] == h[i] && d[j] == h[j]);
            }
        }
        lemma_without_distinct(d, p);
        lemma_without_members(d, p);
        let w = without(d, p);
        if h.last() != p {
            assert forall|i: int| 0 <= i < w.len() implies w[i] != h.last() by {
                assert(d.contains(w[i]));
                let k = choose|k: int| 0 <= k < d.len() && d[k] == w[i];
                assert(h[k] == d[k]);
            }
        }
    }
}

/// After a file is recorded, it is the most recent entry, it occurs once,
/// the history holds at most `HISTORY_LIMIT` entries, and every other entry
/// was in the history before.
pub proof fn lemma_recorded_file_first(h: Seq<Seq<char>>, p: Seq<char>)
    ensures
        remembered(h, p).len() >= 1,
        remembered(h, p).len() <= HISTORY_LIMIT,
        remembered(h, p)[0] == p,
        forall|i: int| 1 <= i < remembered(h, p).len() ==> #[trigger] remembered(h, p)[i] != p,
        forall|i: int| 1 <= i < remembered(h, p).len() ==> h.contains(#[trigger] remembered(h, p)[i]),
{
    lemma_without_members(h, p);
    let w = without(h, p);
    let r = remembered(h, p);
    assert forall|i: int| 1 <= i < r.len() implies #[trigger] r[i] != p && h.contains(r[i]) by {
        assert(r[i] == (seq![p] + w)[i]);
        assert((seq![p] + w)[i] == w[i - 1]);
    }
}

/// Recording keeps a history free of repeated entries.
pub proof fn lemma_record_keeps_distinct(h: Seq<Seq<char>>, p: Seq<char>)
    requires
        distinct(h),
    ensures
        distinct(remembered(h, p)),
{
    lemma_without_distinct(h, p);
    lemma_without_members(h, p);
    let w = without(h, p);
    let full = seq![p] + w;
    assert forall|i: int, j: int|
        0 <= i < full.len() && 0 <= j < full.len() && i != j implies full[i] != full[j] by {
        if i > 0 && j > 0 {
            assert(full[i] == w[i - 1] && full[j] == w[j - 1]);
        } else if i == 0 {
            assert(full[j] == w[j - 1]);
        } else {
            assert(full[i] == w[i - 1]);
        }
    }
    let r = remembered(h, p);
    assert forall|i: int, j: int|
        0 <= i < r.len() && 0 <= j < r.len() && i != j implies r[i] != r[j] by {
        assert(r[i] == full[i] && r[j] == full[j]);
    }
}

/// Recording the same file twice gives the history of recording it once.
pub proof fn lemma_record_idempotent(h: Seq<Seq<char>>, p: Seq<char>)
    ensures
        remembered(remembered(h, p), p) == remembered(h, p),
{
    lemma_recorded_file_first(h, p);
    let r = remembered(h, p);
    let rest = r.drop_first();
    assert forall|i: int| 0 <= i < rest.len() implies rest[i] != p by {
        assert(rest[i] == r[i + 1]);
    }
    lemma_without_absent(rest, p);
    assert(r == seq![p] + rest);
    lemma_without_front(rest, p);
    assert(without(r, p) == rest);
    assert(seq![p] + rest == r);
}

proof fn lemma_without_front(s: Seq<Seq<char>>, p: Seq<char>)
    ensures
        without(seq![p] + s, p) == without(s, p),
    decreases s.len(),
{
    let ps = seq![p] + s;
    if s.len() == 0 {
        assert(ps == seq![p]);
        assert(ps.drop_last() == Seq::<Seq<char>>::empty());
        assert(without(ps.drop_last(), p) == Seq::<Seq<char>>::empty());
        assert(ps.last() == p);
        assert(without(ps, p) == without(ps.drop_last(), p));
    } else {
        assert(ps.drop_last() == seq![p] + s.drop_last());
        assert(ps.last() == s.last());
        lemma_without_front(s.drop_last(), p);
        assert(without(ps.drop_last(), p) == without(s.drop_last(), p));
    }
}

/// Recording a file that is not in the history puts it in front of the
/// whole history, the oldest entries dropped beyond `HISTORY_LIMIT`.
pub proof fn lemma_record_new_file(h: Seq<Seq<char>>, p: Seq<char>)
    requires
        forall|i: int| 0 <= i < h.len() ==> h[i] != p,
    ensures
        remembered(h, p) == (if h.len() < HISTORY_LIMIT {
            seq![p] + h
        } else {
            seq![p] + h.take(HISTORY_LIMIT - 1)
        }),
{
    lemma_without_absent(h, p);
    if h.len() >= HISTORY_LIMIT {
        assert((seq![p] + h).take(HISTORY_LIMIT as int) =~= seq![p] + h.take(HISTORY_LIMIT - 1));
    }
}

/// What `serde_json` reads from a JSON text as a list of strings, if it is one.
pub uninterp spec fn history_from_json(text: Seq<char>) -> Option<Seq<Seq<char>>>;

/// The JSON text that `serde_json` writes for a list of strings.
pub uninterp spec fn history_to_json(h: Seq<Seq<char>>) -> Seq<char>;

/// The characters of each string of an optional list.
pub open spec fn list_views(r: Option<Vec<String>>) -> Option<Seq<Seq<char>>> {
    match r {
        Some(v) => Some(views(v@)),
        None => None,
    }
}

/// `serde_json::from_str::<Vec<String>>`: the list of strings that the JSON
/// text holds, or `None` when the text is not a JSON array of strings. What
/// it reads is named by `history_from_json`, a function of the text. Reading
/// the text that `serde_json::to_string` writes for a list of strings gives
/// that list back (JSON strings escape every character they hold).
#[verifier::external_body]
fn parse_string_list(text: &str) -> (r: Option<Vec<String>>)
    ensures
        match r {
            Some(v) => history_from_json(text@) == Some(views(v@)),
            None => history_from_json(text@) is None,
        },
        forall|h: Seq<Seq<char>>| #[trigger] history_to_json(h) == text@ ==> list_views(r) == Some(h),
{
    serde_json::from_str::<Vec<String>>(text).ok()
}

/// `serde_json::to_string` on a list of strings: the JSON text, named by
/// `history_to_json`. Writing strings into memory cannot fail, so the
/// answer is always there.
#[verifier::external_body]
fn string_list_to_json(h: &Vec<String>) -> (r: Option<String>)
    ensures
        r is Some,
        r matches Some(t) ==> t@ == history_to_json(views(h@)),
{
    serde_json::to_string(h).ok()
}

/// The history that a history file holds: empty when there is no file or
/// it is not a JSON list of strings; the history written by `history_text`
/// reads back as itself.
pub fn parse_history(contents: Option<String>) -> (r: Vec<String>)
    ensures
        contents matches Some(t) ==> forall|h: Seq<Seq<char>>|
            #[trigger] history_to_json(h) == t@ ==> views(r@) == h,
        views(r@) == match contents {
            None => Seq::empty(),
            Some(t) => match history_from_json(t@) {
                Some(h) => h,
                None => Seq::empty(),
            },
        },
{
    match contents {
        None => Vec::new(),
        Some(t) => match parse_string_list(t.as_str()) {
            Some(v) => v,
            None => {
                let v: Vec<String> = Vec::new();
                assert(views(v@) =~= Seq::empty());
                v
            },
        },
    }
}

/// The text of the history file for a history.
pub fn history_text(history: &Vec<String>) -> (r: Option<String>)
    ensures
        r matches Some(t) && t@ == history_to_json(views(history@)),
{
    string_list_to_json(history)
}

} // verus!
