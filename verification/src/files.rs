//! Decision rules of the application's file bookkeeping: which names count
//! as daily log, audit-log or backup files, which of those fall before a
//! retention cutoff date, the name a new backup file gets, and the order in
//! which log files are listed. The surrounding program reads directories
//! and deletes files; these functions decide.

use vstd::prelude::*;
use vstd::string::StrSliceExecFns;
use vstd::string::StringExecFns;

use crate::date::{parse_iso_date, parsed_date, Date};
use crate::logger::{extract_date_from_filename, extracted_date_of, pattern_at, starts_with_spec};

verus! {

/// `text` ends with `suffix`.
pub open spec fn ends_with_spec(text: Seq<char>, suffix: Seq<char>) -> bool {
    text.len() >= suffix.len()
        && text.subrange(text.len() - suffix.len(), text.len() as int) == suffix
}

/// Whether `text` ends with `suffix`; lengths are passed in so that callers
/// do not recount them.
fn ends_with(text: &str, text_len: usize, suffix: &str, suffix_len: usize) -> (r: bool)
    requires
        text_len == text@.len(),
        suffix_len == suffix@.len(),
    ensures
        r == ends_with_spec(text@, suffix@),
{
    if suffix_len > text_len {
        return false;
    }
    pattern_at(text, text_len, suffix, suffix_len, text_len - suffix_len)
}

/// The date text inside a daily log file name: what stands between a
/// `frontend-` or `backend-` prefix and a `.log` or `.json` extension.
pub open spec fn log_name_date_text(name: Seq<char>) -> Option<Seq<char>> {
    let rest = if starts_with_spec(name, "frontend-"@) {
        Some(name.skip("frontend-"@.len() as int))
    } else if starts_with_spec(name, "backend-"@) {
        Some(name.skip("backend-"@.len() as int))
    } else {
        None
    };
    match rest {
        Some(middle) => if ends_with_spec(middle, ".log"@) {
            Some(middle.take(middle.len() - ".log"@.len()))
        } else if ends_with_spec(middle, ".json"@) {
            Some(middle.take(middle.len() - ".json"@.len()))
        } else {
            None
        },
        None => None,
    }
}

/// Whether the daily-log retention sweep deletes a file: its name carries a
/// date, and that date falls strictly before the cutoff.
pub open spec fn log_file_deletable_spec(name: Seq<char>, cutoff: Date) -> bool {
    match log_name_date_text(name) {
        Some(text) => match parsed_date(text) {
            Some(d) => d.before_spec(cutoff),
            None => false,
        },
        None => false,
    }
}

/// Decides whether the daily-log retention sweep deletes a file of this
/// name, given the cutoff date (today minus the retention window).
pub fn log_file_deletable(name: &str, cutoff: &Date) -> (r: bool)
    ensures
        r == log_file_deletable_spec(name@, *cutoff),
{
    proof {
        reveal_strlit("frontend-");
        reveal_strlit("backend-");
        reveal_strlit(".log");
        reveal_strlit(".json");
    }
    let n = name.unicode_len();
    let front = "frontend-";
    let front_len = front.unicode_len();
    let back = "backend-";
    let back_len = back.unicode_len();
    let start: usize;
    if pattern_at(name, n, front, front_len, 0) {
        start = front_len;
    } else if pattern_at(name, n, back, back_len, 0) {
        start = back_len;
    } else {
        return false;
    }
    let middle = name.substring_char(start, n);
    let m = n - start;
    proof {
        assert(middle@ =~= name@.skip(start as int));
    }
    let log_ext = ".log";
    let log_ext_len = log_ext.unicode_len();
    let json_ext = ".json";
    let json_ext_len = json_ext.unicode_len();
    let date_text: &str;
    if ends_with(middle, m, log_ext, log_ext_len) {
        date_text = middle.substring_char(0, m - log_ext_len);
    } else if ends_with(middle, m, json_ext, json_ext_len) {
        date_text = middle.substring_char(0, m - json_ext_len);
    } else {
        return false;
    }
    proof {
        assert(date_text@ =~= log_name_date_text(name@)->Some_0);
    }
    match parse_iso_date(date_text) {
        Some(d) => d.before(cutoff),
        None => false,
    }
}

/// The date text inside an audit log file name: what stands between the
/// `audit-` prefix and the `.json` extension.
pub open spec fn audit_name_date_text(name: Seq<char>) -> Option<Seq<char>> {
    if starts_with_spec(name, "audit-"@) {
        let rest = name.skip("audit-"@.len() as int);
        if ends_with_spec(rest, ".json"@) {
            Some(rest.take(rest.len() - ".json"@.len()))
        } else {
            None
        }
    } else {
        None
    }
}

/// A well-formed daily audit log file name: `audit-<date>.json` with a real
/// calendar date. The audit listing shows exactly these.
pub open spec fn is_audit_log_name_spec(name: Seq<char>) -> bool {
    match audit_name_date_text(name) {
        Some(text) => parsed_date(text) is Some,
        None => false,
    }
}

/// The date inside an audit log file name, when it is well formed.
pub fn audit_log_date(name: &str) -> (r: Option<Date>)
    ensures
        match r {
            Some(d) => audit_name_date_text(name@) matches Some(text) && parsed_date(text)
                == Some(d),
            None => !is_audit_log_name_spec(name@),
        },
{
    proof {
        reveal_strlit("audit-");
        reveal_strlit(".json");
    }
    let n = name.unicode_len();
    let prefix = "audit-";
    let prefix_len = prefix.unicode_len();
    if !pattern_at(name, n, prefix, prefix_len, 0) {
        return None;
    }
    let rest = name.substring_char(prefix_len, n);
    let m = n - prefix_len;
    proof {
        assert(rest@ =~= name@.skip(prefix_len as int));
    }
    let ext = ".json";
    let ext_len = ext.unicode_len();
    if !ends_with(rest, m, ext, ext_len) {
        return None;
    }
    let date_text = rest.substring_char(0, m - ext_len);
    proof {
        assert(date_text@ =~= audit_name_date_text(name@)->Some_0);
    }
    parse_iso_date(date_text)
}

/// Whether a name is a well-formed daily audit log file name.
pub fn is_audit_log_name(name: &str) -> (r: bool)
    ensures
        r == is_audit_log_name_spec(name@),
{
    audit_log_date(name).is_some()
}

/// Whether the audit retention sweep deletes a file: its name is a
/// well-formed audit log name whose date falls strictly before the cutoff.
pub open spec fn audit_file_deletable_spec(name: Seq<char>, cutoff: Date) -> bool {
    match audit_name_date_text(name) {
        Some(text) => match parsed_date(text) {
            Some(d) => d.before_spec(cutoff),
            None => false,
        },
        None => false,
    }
}

/// Decides whether the audit retention sweep deletes a file of this name.
pub fn audit_file_deletable(name: &str, cutoff: &Date) -> (r: bool)
    ensures
        r == audit_file_deletable_spec(name@, *cutoff),
{
    match audit_log_date(name) {
        Some(d) => d.before(cutoff),
        None => false,
    }
}

/// A file that clearing all logs removes: any `.log` or `.json` file.
pub open spec fn is_log_file_name_spec(name: Seq<char>) -> bool {
    ends_with_spec(name, ".log"@) || ends_with_spec(name, ".json"@)
}

/// Whether clearing all logs removes a file of this name.
pub fn is_log_file_name(name: &str) -> (r: bool)
    ensures
        r == is_log_file_name_spec(name@),
{
    proof {
        reveal_strlit(".log");
        reveal_strlit(".json");
    }
    let n = name.unicode_len();
    let log_ext = ".log";
    let json_ext = ".json";
    ends_with(name, n, log_ext, log_ext.unicode_len())
        || ends_with(name, n, json_ext, json_ext.unicode_len())
}

/// An automatic backup file: `auto_backup_<timestamp>.json`.
pub open spec fn is_backup_file_name_spec(name: Seq<char>) -> bool {
    starts_with_spec(name, "auto_backup_"@) && ends_with_spec(name, ".json"@)
}

/// Whether a name belongs to an automatic backup file.
pub fn is_backup_file_name(name: &str) -> (r: bool)
    ensures
        r == is_backup_file_name_spec(name@),
{
    proof {
        reveal_strlit("auto_backup_");
        reveal_strlit(".json");
    }
    let n = name.unicode_len();
    let prefix = "auto_backup_";
    let ext = ".json";
    pattern_at(name, n, prefix, prefix.unicode_len(), 0)
        && ends_with(name, n, ext, ext.unicode_len())
}

/// A backup timestamp with every `:` and `.` replaced by `-`, so that it
/// can stand in a file name on every platform.
pub open spec fn sanitized_timestamp(timestamp: Seq<char>) -> Seq<char> {
    timestamp.map_values(
        |c: char|
            if c == ':' || c == '.' {
                '-'
            } else {
                c
            },
    )
}

/// The name a new automatic backup file gets for a timestamp.
pub open spec fn backup_file_name_of(timestamp: Seq<char>) -> Seq<char> {
    "auto_backup_"@ + sanitized_timestamp(timestamp) + ".json"@
}

/// Builds the name of a new automatic backup file from its timestamp.
pub fn backup_file_name(timestamp: &str) -> (r: String)
    ensures
        r@ == backup_file_name_of(timestamp@),
{
    proof {
        reveal_strlit("auto_backup_");
        reveal_strlit(".json");
        reveal_strlit("-");
    }
    let n = timestamp.unicode_len();
    let mut s = String::new();
    s.append("auto_backup_");
    let mut i: usize = 0;
    proof {
        assert(sanitized_timestamp(timestamp@.take(0)) =~= Seq::<char>::empty());
        assert(s@ =~= "auto_backup_"@ + sanitized_timestamp(timestamp@.take(0)));
    }
    while i < n
        invariant
            n == timestamp@.len(),
            i <= n,
            s@ == "auto_backup_"@ + sanitized_timestamp(timestamp@.take(i as int)),
        decreases n - i,
    {
        let ghost old_s = s@;
        let c = timestamp.get_char(i);
        if c == ':' || c == '.' {
            s.append("-");
            proof {
                reveal_strlit("-");
                assert(("-")@ =~= seq!['-']);
            }
        } else {
            let piece = timestamp.substring_char(i, i + 1);
            s.append(piece);
            proof {
                assert(piece@ =~= seq![timestamp@[i as int]]);
            }
        }
        proof {
            assert(sanitized_timestamp(timestamp@.take(i + 1)) =~= sanitized_timestamp(
                timestamp@.take(i as int),
            ).push(
                if timestamp@[i as int] == ':' || timestamp@[i as int] == '.' {
                    '-'
                } else {
                    timestamp@[i as int]
                },
            ));
            assert(s@ =~= "auto_backup_"@ + sanitized_timestamp(timestamp@.take(i + 1)));
        }
        i = i + 1;
    }
    s.append(".json");
    proof {
        assert(timestamp@.take(n as int) =~= timestamp@);
        assert(s@ =~= backup_file_name_of(timestamp@));
    }
    s
}

/// Lexicographic order on texts by character code: the order in which the
/// bookkeeping sorts names and extracted dates. For two dates in the
/// canonical `YYYY-MM-DD` form it is date order.
pub open spec fn lex_less(a: Seq<char>, b: Seq<char>) -> bool
    decreases a.len(),
{
    if b.len() == 0 {
        false
    } else if a.len() == 0 {
        true
    } else if (a[0] as int) < (b[0] as int) {
        true
    } else if (a[0] as int) > (b[0] as int) {
        false
    } else {
        lex_less(a.skip(1), b.skip(1))
    }
}

proof fn lemma_lex_less_equal_heads(a: Seq<char>, b: Seq<char>, i: int)
    requires
        0 <= i < a.len(),
        i < b.len(),
        a[i] == b[i],
    ensures
        lex_less(a.skip(i), b.skip(i)) == lex_less(a.skip(i + 1), b.skip(i + 1)),
{
    assert(a.skip(i).skip(1) =~= a.skip(i + 1));
    assert(b.skip(i).skip(1) =~= b.skip(i + 1));
}

/// Whether `a` comes strictly before `b` in lexicographic order by
/// character code.
pub fn str_lex_less(a: &str, b: &str) -> (r: bool)
    ensures
        r == lex_less(a@, b@),
{
    let a_len = a.unicode_len();
    let b_len = b.unicode_len();
    let min_len = if a_len < b_len {
        a_len
    } else {
        b_len
    };
    let mut i: usize = 0;
    proof {
        assert(a@.skip(0) =~= a@);
        assert(b@.skip(0) =~= b@);
    }
    while i < min_len
        invariant
            a_len == a@.len(),
            b_len == b@.len(),
            min_len == if a_len < b_len { a_len } else { b_len },
            i <= min_len,
            lex_less(a@, b@) == lex_less(a@.skip(i as int), b@.skip(i as int)),
        decreases min_len - i,
    {
        let ca = a.get_char(i);
        let cb = b.get_char(i);
        proof {
            assert(a@.skip(i as int)[0] == a@[i as int]);
            assert(b@.skip(i as int)[0] == b@[i as int]);
        }
        if (ca as u32) < (cb as u32) {
            return true;
        }
        if (ca as u32) > (cb as u32) {
            return false;
        }
        proof {
            vstd::utf8::char_u32_cast(ca, ca as u32);
            vstd::utf8::char_u32_cast(cb, cb as u32);
            lemma_lex_less_equal_heads(a@, b@, i as int);
        }
        i = i + 1;
    }
    proof {
        if a_len < b_len {
            assert(a@.skip(i as int).len() == 0);
            assert(b@.skip(i as int).len() > 0);
        } else {
            assert(b@.skip(i as int).len() == 0);
        }
    }
    a_len < b_len
}

/// Whether log file `a` stands before log file `b` in a newest-first
/// listing: the date extracted from `b`'s name comes lexicographically
/// before the date extracted from `a`'s.
pub fn log_file_sorts_before(a: &str, b: &str) -> (r: bool)
    ensures
        r == lex_less(extracted_date_of(b@), extracted_date_of(a@)),
{
    let date_a = extract_date_from_filename(a);
    let date_b = extract_date_from_filename(b);
    str_lex_less(date_b.as_str(), date_a.as_str())
}

proof fn lemma_lex_less_irreflexive(a: Seq<char>)
    ensures
        !lex_less(a, a),
    decreases a.len(),
{
    if a.len() > 0 {
        lemma_lex_less_irreflexive(a.skip(1));
    }
}

proof fn lemma_lex_less_transitive(a: Seq<char>, b: Seq<char>, c: Seq<char>)
    requires
        lex_less(a, b),
        lex_less(b, c),
    ensures
        lex_less(a, c),
    decreases a.len(),
{
    if b.len() > 0 && a.len() > 0 && c.len() > 0 {
        if (a[0] as int) == (b[0] as int) && (b[0] as int) == (c[0] as int) {
            lemma_lex_less_transitive(a.skip(1), b.skip(1), c.skip(1));
        }
    }
}

/// `a` may stand before `b` in a newest-first log listing: the date
/// extracted from `b` does not exceed the date extracted from `a`.
pub open spec fn listed_in_order(a: Seq<char>, b: Seq<char>) -> bool {
    !lex_less(extracted_date_of(a), extracted_date_of(b))
}

/// Sorts log file names for a newest-first listing: the result is a
/// rearrangement of the input in which no name is followed by one whose
/// extracted date exceeds its own.
pub fn sort_log_files_newest_first(names: Vec<String>) -> (r: Vec<String>)
    ensures
        r.deep_view().to_multiset() == names.deep_view().to_multiset(),
        forall|i: int, j: int|
            0 <= i < j < r.deep_view().len() ==> listed_in_order(
                #[trigger] r.deep_view()[i],
                #[trigger] r.deep_view()[j],
            ),
{
    broadcast use vstd::seq_lib::group_to_multiset_ensures;
    broadcast use vstd::multiset::group_multiset_axioms;

    let mut rest = names;
    let mut out: Vec<String> = Vec::new();
    proof {
        assert(out.deep_view() =~= Seq::<Seq<char>>::empty());
        assert(out.deep_view().to_multiset().add(rest.deep_view().to_multiset())
            =~= names.deep_view().to_multiset());
    }
    while rest.len() > 0
        invariant
            out.deep_view().to_multiset().add(rest.deep_view().to_multiset())
                == names.deep_view().to_multiset(),
            forall|i: int, j: int|
                0 <= i < j < out.deep_view().len() ==> listed_in_order(
                    #[trigger] out.deep_view()[i],
                    #[trigger] out.deep_view()[j],
                ),
            forall|i: int, j: int|
                0 <= i < out.deep_view().len() && 0 <= j < rest.deep_view().len()
                    ==> listed_in_order(
                    #[trigger] out.deep_view()[i],
                    #[trigger] rest.deep_view()[j],
                ),
        decreases rest@.len(),
    {
        let m = newest_index(&rest);
        let ghost old_rest = rest.deep_view();
        let ghost old_out = out.deep_view();
        let picked = rest.remove(m);
        proof {
            assert(rest.deep_view() =~= old_rest.remove(m as int));
            assert(forall|j: int|
                0 <= j < rest.deep_view().len() ==> #[trigger] rest.deep_view()[j] == old_rest[
                    if j < m { j } else { j + 1 }
                ]);
        }
        out.push(picked);
        proof {
            let x = old_rest[m as int];
            old_rest.to_multiset_ensures();
            old_out.to_multiset_ensures();
            assert(out.deep_view() =~= old_out.push(x));
            assert(old_rest.contains(x));
            assert(old_rest.remove(m as int).to_multiset() =~= old_rest.to_multiset().remove(x));
            assert(old_out.push(x).to_multiset() =~= old_out.to_multiset().insert(x));
            assert(out.deep_view().to_multiset().add(rest.deep_view().to_multiset())
                =~= names.deep_view().to_multiset());
        }
    }
    proof {
        assert(rest.deep_view() =~= Seq::<Seq<char>>::empty());
        assert(out.deep_view().to_multiset().add(rest.deep_view().to_multiset())
            =~= out.deep_view().to_multiset());
    }
    out
}

/// The position of a name whose extracted date no other name's exceeds.
fn newest_index(names: &Vec<String>) -> (m: usize)
    requires
        names@.len() > 0,
    ensures
        m < names@.len(),
        forall|t: int|
            0 <= t < names.deep_view().len() ==> listed_in_order(
                names.deep_view()[m as int],
                #[trigger] names.deep_view()[t],
            ),
{
    let mut m: usize = 0;
    let mut k: usize = 1;
    proof {
        lemma_lex_less_irreflexive(extracted_date_of(names.deep_view()[0]));
    }
    while k < names.len()
        invariant
            names@.len() > 0,
            m < k <= names@.len(),
            forall|t: int|
                0 <= t < k ==> listed_in_order(
                    names.deep_view()[m as int],
                    #[trigger] names.deep_view()[t],
                ),
        decreases names@.len() - k,
    {
        let ghost dv = names.deep_view();
        if log_file_sorts_before(&names[k], &names[m]) {
            proof {
                assert forall|t: int| 0 <= t < k implies listed_in_order(
                    dv[k as int],
                    #[trigger] dv[t],
                ) by {
                    if lex_less(extracted_date_of(dv[k as int]), extracted_date_of(dv[t])) {
                        lemma_lex_less_transitive(
                            extracted_date_of(dv[m as int]),
                            extracted_date_of(dv[k as int]),
                            extracted_date_of(dv[t]),
                        );
                    }
                }
                lemma_lex_less_irreflexive(extracted_date_of(dv[k as int]));
            }
            m = k;
        }
        k = k + 1;
    }
    m
}

} // verus!
