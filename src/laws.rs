//! Properties that relate the scan, the cleaning, and repeated use of them.
use vstd::prelude::*;

use crate::flags::{
    clean_spec, consumed_by_scan, ends_on_open_flag, flag_kind, parse_from, takes_value, unmarked,
    FlagKind, FlagsModel,
};

verus! {

proof fn flag_name_lengths()
    ensures
        "--json"@.len() == 6,
        "--full"@.len() == 6,
        "-f"@.len() == 2,
        "--headed"@.len() == 8,
        "--debug"@.len() == 7,
        "--session"@.len() == 9,
        "--executable-path"@.len() == 17,
{
    reveal_strlit("--json");
    reveal_strlit("--full");
    reveal_strlit("-f");
    reveal_strlit("--headed");
    reveal_strlit("--debug");
    reveal_strlit("--session");
    reveal_strlit("--executable-path");
}

/// `--session` takes the token right after it as the session, whatever that
/// token is (another flag included), and the scan goes on after that token.
pub proof fn session_takes_next_token(v: Seq<char>, rest: Seq<Seq<char>>, m: FlagsModel)
    ensures
        parse_from(seq!["--session"@, v] + rest, m) == parse_from(
            rest,
            FlagsModel { session: v, ..m },
        ),
{
    flag_name_lengths();
    let a = seq!["--session"@, v] + rest;
    assert(flag_kind(a[0]) == FlagKind::Session);
    assert(a.subrange(2, a.len() as int) =~= rest);
}

/// `--executable-path` takes the token right after it as the path, whatever
/// that token is, and the scan goes on after that token.
pub proof fn executable_path_takes_next_token(v: Seq<char>, rest: Seq<Seq<char>>, m: FlagsModel)
    ensures
        parse_from(seq!["--executable-path"@, v] + rest, m) == parse_from(
            rest,
            FlagsModel { executable_path: Some(v), ..m },
        ),
{
    flag_name_lengths();
    let a = seq!["--executable-path"@, v] + rest;
    assert(flag_kind(a[0]) == FlagKind::ExecutablePath);
    assert(a.subrange(2, a.len() as int) =~= rest);
}

/// Scanning `p` and then `q` is scanning `p + q`, unless `p` ends on a value
/// flag that would take the first token of `q`.
pub proof fn scan_splits(p: Seq<Seq<char>>, q: Seq<Seq<char>>, m: FlagsModel)
    requires
        !ends_on_open_flag(p),
    ensures
        parse_from(p + q, m) == parse_from(q, parse_from(p, m)),
    decreases p.len(),
{
    if p.len() > 0 {
        let a = p + q;
        assert(a[0] == p[0]);
        assert(a.drop_first() =~= p.drop_first() + q);
        let k = flag_kind(p[0]);
        if takes_value(k) {
            assert(a[1] == p[1]);
            assert(a.subrange(2, a.len() as int) =~= p.subrange(2, p.len() as int) + q);
            if k == FlagKind::Session {
                scan_splits(
                    p.subrange(2, p.len() as int),
                    q,
                    FlagsModel { session: p[1], ..m },
                );
            } else {
                scan_splits(
                    p.subrange(2, p.len() as int),
                    q,
                    FlagsModel { executable_path: Some(p[1]), ..m },
                );
            }
        } else {
            let m2 = match k {
                FlagKind::Json => FlagsModel { json: true, ..m },
                FlagKind::Full => FlagsModel { full: true, ..m },
                FlagKind::Headed => FlagsModel { headed: true, ..m },
                FlagKind::Debug => FlagsModel { debug: true, ..m },
                _ => m,
            };
            scan_splits(p.drop_first(), q, m2);
        }
    } else {
        assert(p + q =~= q);
    }
}

/// A value flag that the scan reaches as the last token changes nothing: the
/// configuration is the one that the tokens before it give.
pub proof fn trailing_value_flag_changes_nothing(p: Seq<Seq<char>>, f: Seq<char>, m: FlagsModel)
    requires
        takes_value(flag_kind(f)),
        !ends_on_open_flag(p),
    ensures
        parse_from(p + seq![f], m) == parse_from(p, m),
{
    scan_splits(p, seq![f], m);
}

/// Cleaning removes exactly the tokens that the scan reads as flags or as
/// their values, and keeps the others in their order.
pub proof fn clean_drops_what_scan_reads(a: Seq<Seq<char>>)
    ensures
        consumed_by_scan(a).len() == a.len(),
        clean_spec(a) == unmarked(a, consumed_by_scan(a)),
    decreases a.len(),
{
    if a.len() > 0 {
        let k = flag_kind(a[0]);
        let c = consumed_by_scan(a);
        if takes_value(k) {
            if a.len() >= 2 {
                let tail = a.subrange(2, a.len() as int);
                clean_drops_what_scan_reads(tail);
                let ct = consumed_by_scan(tail);
                assert(c.drop_first().drop_first() =~= ct);
                assert(a.drop_first().drop_first() =~= tail);
                assert(unmarked(a, c) =~= unmarked(a.drop_first(), c.drop_first()));
                assert(unmarked(a.drop_first(), c.drop_first()) =~= unmarked(tail, ct));
            } else {
                assert(a.drop_first() =~= Seq::<Seq<char>>::empty());
                assert(unmarked(a.drop_first(), c.drop_first()) =~= Seq::<Seq<char>>::empty());
                assert(unmarked(a, c) =~= Seq::<Seq<char>>::empty());
            }
        } else {
            clean_drops_what_scan_reads(a.drop_first());
            assert(c.drop_first() =~= consumed_by_scan(a.drop_first()));
        }
    }
}

/// No token left by cleaning is a global flag.
pub proof fn cleaned_holds_no_flag(a: Seq<Seq<char>>)
    ensures
        forall|i: int| 0 <= i < clean_spec(a).len() ==> flag_kind(#[trigger] clean_spec(a)[i])
            == FlagKind::Other,
    decreases a.len(),
{
    if a.len() > 0 {
        if takes_value(flag_kind(a[0])) {
            if a.len() >= 2 {
                cleaned_holds_no_flag(a.subrange(2, a.len() as int));
            }
        } else {
            cleaned_holds_no_flag(a.drop_first());
            let r = clean_spec(a.drop_first());
            if flag_kind(a[0]) == FlagKind::Other {
                assert forall|i: int| 0 <= i < clean_spec(a).len() implies flag_kind(
                    #[trigger] clean_spec(a)[i],
                ) == FlagKind::Other by {
                    if i > 0 {
                        assert(clean_spec(a)[i] == r[i - 1]);
                    }
                }
            }
        }
    }
}

/// Cleaning leaves a list with no global flag as it is.
pub proof fn clean_keeps_flag_free(a: Seq<Seq<char>>)
    requires
        forall|i: int| 0 <= i < a.len() ==> flag_kind(#[trigger] a[i]) == FlagKind::Other,
    ensures
        clean_spec(a) == a,
    decreases a.len(),
{
    if a.len() > 0 {
        assert(flag_kind(a[0]) == FlagKind::Other);
        let t = a.drop_first();
        assert forall|i: int| 0 <= i < t.len() implies flag_kind(#[trigger] t[i])
            == FlagKind::Other by {
            assert(t[i] == a[i + 1]);
        }
        clean_keeps_flag_free(t);
        assert(seq![a[0]] + t =~= a);
    }
}

/// Cleaning twice is cleaning once.
pub proof fn clean_idempotent(a: Seq<Seq<char>>)
    ensures
        clean_spec(clean_spec(a)) == clean_spec(a),
{
    cleaned_holds_no_flag(a);
    clean_keeps_flag_free(clean_spec(a));
}

} // verus!
