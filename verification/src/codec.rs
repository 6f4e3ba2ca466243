//! The persistence codec.
//!
//! A save is written as a small key/value text document: an `[items]`
//! table whose keys are the items' display names (quoted) and whose
//! values are counts, then a `[date]` table with the three calendar
//! fields. The document is then passed through the byte transform of
//! `crypt`. Loading runs the exact inverse and fails — without touching
//! any in-memory state — on the first stage that does not fit.
//!
//! The format carries no version field, and the parser accepts nothing
//! but the exact shape written here; should the format ever change, old
//! readers will reject new files with a `DeserializeError` instead of
//! misreading them.

use crate::calendar::GensoDate;
use crate::item::{item_display, lemma_parse_display_name, spec_parse_item, Item};
use crate::LoadError;
use crate::ledger::distinct_keys;
use crate::save::NativeSaveData;
use crate::text::{dec_chars, is_digit, sp_num};
use vstd::prelude::*;
use vstd::string::StringExecFns;
use vstd::utf8::{decode_utf8, encode_utf8, valid_utf8};

verus! {

/// Characters of the `[items]` table header line.
pub open spec fn items_header() -> Seq<char> {
    seq!['[', 'i', 't', 'e', 'm', 's', ']', '\n']
}

/// Characters between the last entry and the season value: a blank line,
/// the `[date]` header and the season key.
pub open spec fn season_prefix() -> Seq<char> {
    seq!['\n', '[', 'd', 'a', 't', 'e', ']', '\n', 's', 'e', 'a', 's', 'o', 'n', ' ', '=', ' ']
}

/// Characters between the season value and the month value.
pub open spec fn month_prefix() -> Seq<char> {
    seq!['\n', 'm', 'o', 'n', 't', 'h', ' ', '=', ' ']
}

/// Characters between the month value and the day value.
pub open spec fn day_prefix() -> Seq<char> {
    seq!['\n', 'd', 'a', 'y', ' ', '=', ' ']
}

/// One ledger line: the quoted display name, ` = `, the count, a newline.
pub open spec fn ser_entry(e: (Item, usize)) -> Seq<char> {
    seq!['"'] + item_display(e.0) + seq!['"', ' ', '=', ' '] + dec_chars(e.1 as int) + seq!['\n']
}

/// The ledger lines in their stored order.
pub open spec fn ser_entries(s: Seq<(Item, usize)>) -> Seq<char>
    decreases s.len(),
{
    if s.len() == 0 {
        Seq::empty()
    } else {
        ser_entry(s.first()) + ser_entries(s.drop_first())
    }
}

/// Appending an entry appends its line.
pub proof fn lemma_ser_entries_snoc(s: Seq<(Item, usize)>, e: (Item, usize))
    ensures
        ser_entries(s.push(e)) == ser_entries(s) + ser_entry(e),
    decreases s.len(),
{
    if s.len() == 0 {
        assert(s.push(e).drop_first() =~= Seq::<(Item, usize)>::empty());
        assert(s.push(e).first() == e);
        assert(ser_entries(s.push(e)) == ser_entry(e) + ser_entries(
            Seq::<(Item, usize)>::empty(),
        ));
        assert(ser_entry(e) + Seq::<char>::empty() =~= Seq::<char>::empty() + ser_entry(e));
        assert(ser_entries(s.push(e)) =~= ser_entries(s) + ser_entry(e));
    } else {
        assert(s.push(e).drop_first() =~= s.drop_first().push(e));
        lemma_ser_entries_snoc(s.drop_first(), e);
        assert(ser_entries(s.push(e)) =~= ser_entries(s) + ser_entry(e));
    }
}

/// The whole document for a ledger content and a date.
pub open spec fn spec_serialize(entries: Seq<(Item, usize)>, date: GensoDate) -> Seq<char> {
    items_header() + ser_entries(entries) + season_prefix() + dec_chars(date.season as int)
        + month_prefix() + dec_chars(date.month as int) + day_prefix() + dec_chars(
        date.day as int,
    ) + seq!['\n']
}

/// Renders a save as the text document described by `spec_serialize`.
pub fn serialize_save(data: &NativeSaveData) -> (s: String)
    ensures
        s@ == spec_serialize(data.spec_items()@, data.spec_date()),
{
    let ghost entries = data.spec_items()@;
    let mut s = String::new();
    proof {
        reveal_strlit("[items]\n");
        assert("[items]\n"@ =~= items_header());
    }
    s.append("[items]\n");
    let list = data.get_items().iter();
    let n = list.len();
    let mut i: usize = 0;
    while i < n
        invariant
            n == list@.len(),
            list@ == entries,
            0 <= i <= n,
            s@ == items_header() + ser_entries(entries.subrange(0, i as int)),
        decreases n - i,
    {
        let ghost s_before = s@;
        let (item, count) = list[i];
        proof {
            reveal_strlit("\"");
            assert("\""@ =~= seq!['"']);
            reveal_strlit("\" = ");
            assert("\" = "@ =~= seq!['"', ' ', '=', ' ']);
            reveal_strlit("\n");
            assert("\n"@ =~= seq!['\n']);
        }
        s.append("\"");
        s.append(item.get_display_name());
        s.append("\" = ");
        crate::text::push_dec(&mut s, count as u64);
        s.append("\n");
        proof {
            assert(s@ =~= s_before + ser_entry(entries[i as int]));
            assert(entries.subrange(0, i + 1) =~= entries.subrange(0, i as int).push(
                entries[i as int],
            ));
            lemma_ser_entries_snoc(entries.subrange(0, i as int), entries[i as int]);
            assert(s@ =~= items_header() + ser_entries(entries.subrange(0, i + 1)));
        }
        i = i + 1;
    }
    proof {
        assert(entries.subrange(0, n as int) =~= entries);
        reveal_strlit("\n[date]\nseason = ");
        assert("\n[date]\nseason = "@ =~= season_prefix());
        reveal_strlit("\nmonth = ");
        assert("\nmonth = "@ =~= month_prefix());
        reveal_strlit("\nday = ");
        assert("\nday = "@ =~= day_prefix());
        reveal_strlit("\n");
        assert("\n"@ =~= seq!['\n']);
    }
    let date = data.get_date();
    s.append("\n[date]\nseason = ");
    crate::text::push_dec(&mut s, date.season as u64);
    s.append("\nmonth = ");
    crate::text::push_dec(&mut s, date.month as u64);
    s.append("\nday = ");
    crate::text::push_dec(&mut s, date.day as u64);
    s.append("\n");
    proof {
        assert(s@ =~= spec_serialize(entries, data.spec_date()));
    }
    s
}

/// Matches a fixed prefix and returns what follows it.
pub open spec fn sp_lit(s: Seq<char>, pat: Seq<char>) -> Option<Seq<char>> {
    if s.len() >= pat.len() && s.subrange(0, pat.len() as int) == pat {
        Some(s.skip(pat.len() as int))
    } else {
        None
    }
}

pub proof fn lemma_sp_lit_exact(pat: Seq<char>, rest: Seq<char>)
    ensures
        sp_lit(pat + rest, pat) == Some(rest),
{
    assert((pat + rest).subrange(0, pat.len() as int) =~= pat);
    assert((pat + rest).skip(pat.len() as int) =~= rest);
}

/// Collects the characters up to the closing quote.
pub open spec fn sp_quoted(s: Seq<char>) -> Option<(Seq<char>, Seq<char>)>
    decreases s.len(),
{
    if s.len() == 0 {
        None
    } else if s[0] == '"' {
        Some((Seq::empty(), s.drop_first()))
    } else {
        match sp_quoted(s.drop_first()) {
            None => None,
            Some((k, r)) => Some((seq![s[0]] + k, r)),
        }
    }
}

pub proof fn lemma_sp_quoted_shrinks(s: Seq<char>)
    ensures
        sp_quoted(s) matches Some(p) ==> p.1.len() < s.len(),
    decreases s.len(),
{
    if s.len() > 0 && s[0] != '"' {
        lemma_sp_quoted_shrinks(s.drop_first());
    }
}

pub proof fn lemma_sp_quoted_exact(k: Seq<char>, rest: Seq<char>)
    requires
        forall|i: int| 0 <= i < k.len() ==> k[i] != '"',
    ensures
        sp_quoted(k + (seq!['"'] + rest)) == Some((k, rest)),
    decreases k.len(),
{
    let s = k + (seq!['"'] + rest);
    if k.len() == 0 {
        assert(s[0] == '"');
        assert(s.drop_first() =~= rest);
        assert(k =~= Seq::<char>::empty());
    } else {
        assert(s[0] == k[0]);
        assert(s.drop_first() =~= k.drop_first() + (seq!['"'] + rest));
        lemma_sp_quoted_exact(k.drop_first(), rest);
        assert(seq![s[0]] + k.drop_first() =~= k);
    }
}

/// The display names never contain a quote, so the quoted form is
/// unambiguous.
pub proof fn lemma_item_display_no_quote(it: Item)
    ensures
        forall|i: int| 0 <= i < item_display(it).len() ==> item_display(it)[i] != '"',
{
}

/// One ledger line: quoted known display name, ` = `, a count that fits
/// `usize`, a newline.
pub open spec fn sp_entry(s: Seq<char>) -> Option<((Item, usize), Seq<char>)> {
    match sp_lit(s, seq!['"']) {
        None => None,
        Some(s1) => match sp_quoted(s1) {
            None => None,
            Some((k, s2)) => match spec_parse_item(k) {
                Err(_) => None,
                Ok(item) => match sp_lit(s2, seq![' ', '=', ' ']) {
                    None => None,
                    Some(s3) => match sp_num(s3) {
                        None => None,
                        Some((v, s4)) => if v > usize::MAX {
                            None
                        } else {
                            match sp_lit(s4, seq!['\n']) {
                                None => None,
                                Some(s5) => Some(((item, v as usize), s5)),
                            }
                        },
                    },
                },
            },
        },
    }
}

/// An accepted entry consumes at least its opening quote.
pub proof fn lemma_sp_entry_consumes(s: Seq<char>)
    ensures
        sp_entry(s) matches Some(p) ==> p.1.len() < s.len(),
{
    if sp_entry(s) is Some {
        let s1 = sp_lit(s, seq!['"']).unwrap();
        lemma_sp_quoted_shrinks(s1);
        let (k, s2) = sp_quoted(s1).unwrap();
        let s3 = sp_lit(s2, seq![' ', '=', ' ']).unwrap();
        let (v, s4) = sp_num(s3).unwrap();
        crate::text::lemma_sp_num_acc_grows(s3, 0);
        let s5 = sp_lit(s4, seq!['\n']).unwrap();
    }
}

/// Parsing the rendering of an entry gives that entry back.
pub proof fn lemma_sp_entry_ser(e: (Item, usize), rest: Seq<char>)
    ensures
        sp_entry(ser_entry(e) + rest) == Some((e, rest)),
{
    let s = ser_entry(e) + rest;
    let disp = item_display(e.0);
    let tail3 = dec_chars(e.1 as int) + (seq!['\n'] + rest);
    let tail2 = seq![' ', '=', ' '] + tail3;
    let tail1 = disp + (seq!['"'] + tail2);
    assert(s =~= seq!['"'] + tail1);
    lemma_sp_lit_exact(seq!['"'], tail1);
    lemma_item_display_no_quote(e.0);
    lemma_sp_quoted_exact(disp, tail2);
    lemma_parse_display_name(e.0);
    lemma_sp_lit_exact(seq![' ', '=', ' '], tail3);
    assert(!is_digit('\n'));
    assert((seq!['\n'] + rest)[0] == '\n');
    crate::text::lemma_sp_num_dec(e.1 as int, seq!['\n'] + rest);
    lemma_sp_lit_exact(seq!['\n'], rest);
}

/// The ledger lines, as many as stand at the front; a line with a key
/// already seen is a malformed document.
pub open spec fn sp_entries(s: Seq<char>, acc: Seq<(Item, usize)>) -> Option<
    (Seq<(Item, usize)>, Seq<char>),
>
    decreases s.len(),
{
    if s.len() == 0 || s[0] != '"' {
        Some((acc, s))
    } else {
        match sp_entry(s) {
            None => None,
            Some((e, r)) => if exists|i: int|
                0 <= i < acc.len() && (#[trigger] acc[i]).0 == e.0 {
                None
            } else if r.len() < s.len() {
                sp_entries(r, acc.push(e))
            } else {
                // an accepted entry always consumes input; this arm only
                // bounds the recursion
                None
            },
        }
    }
}

/// Parsing the rendering of a distinct-keyed entry list, followed by
/// anything that does not begin another entry, gives the list back.
pub proof fn lemma_sp_entries_ser(es: Seq<(Item, usize)>, acc: Seq<(Item, usize)>, rest: Seq<char>)
    requires
        distinct_keys(acc + es),
        rest.len() == 0 || rest[0] != '"',
    ensures
        sp_entries(ser_entries(es) + rest, acc) == Some((acc + es, rest)),
    decreases es.len(),
{
    let s = ser_entries(es) + rest;
    if es.len() == 0 {
        assert(s =~= rest);
        assert(acc + es =~= acc);
    } else {
        let e = es.first();
        let tail = ser_entries(es.drop_first()) + rest;
        assert(s =~= ser_entry(e) + tail);
        lemma_sp_entry_ser(e, tail);
        assert(ser_entry(e).len() > 0);
        assert(ser_entry(e)[0] == '"');
        assert(s[0] == '"');
        assert(!(exists|i: int| 0 <= i < acc.len() && (#[trigger] acc[i]).0 == e.0)) by {
            assert forall|i: int| 0 <= i < acc.len() implies (#[trigger] acc[i]).0 != e.0 by {
                assert((acc + es)[i] == acc[i]);
                assert((acc + es)[acc.len() as int] == e);
            }
        }
        lemma_sp_entry_consumes(s);
        assert(acc.push(e) + es.drop_first() =~= acc + es);
        lemma_sp_entries_ser(es.drop_first(), acc.push(e), rest);
    }
}

/// The whole document: the items table, then the three date fields, then
/// the end of the input.
pub open spec fn sp_save(s: Seq<char>) -> Option<(Seq<(Item, usize)>, GensoDate)> {
    match sp_lit(s, items_header()) {
        None => None,
        Some(s1) => match sp_entries(s1, Seq::empty()) {
            None => None,
            Some((es, s2)) => match sp_lit(s2, season_prefix()) {
                None => None,
                Some(s3) => match sp_num(s3) {
                    None => None,
                    Some((season, s4)) => if season > u32::MAX {
                        None
                    } else {
                        match sp_lit(s4, month_prefix()) {
                            None => None,
                            Some(s5) => match sp_num(s5) {
                                None => None,
                                Some((month, s6)) => if month > u8::MAX {
                                    None
                                } else {
                                    match sp_lit(s6, day_prefix()) {
                                        None => None,
                                        Some(s7) => match sp_num(s7) {
                                            None => None,
                                            Some((day, s8)) => if day > u8::MAX {
                                                None
                                            } else {
                                                match sp_lit(s8, seq!['\n']) {
                                                    None => None,
                                                    Some(s9) => if s9.len() == 0 {
                                                        Some(
                                                            (
                                                                es,
                                                                GensoDate {
                                                                    season: season as u32,
                                                                    month: month as u8,
                                                                    day: day as u8,
                                                                },
                                                            ),
                                                        )
                                                    } else {
                                                        None
                                                    },
                                                }
                                            },
                                        },
                                    }
                                },
                            },
                        }
                    },
                },
            },
        },
    }
}

/// The document round trip: parsing the rendering of any ledger content
/// with distinct keys and any date gives both back exactly.
#[verifier::rlimit(60)]
pub proof fn lemma_sp_save_serialize(entries: Seq<(Item, usize)>, date: GensoDate)
    requires
        distinct_keys(entries),
    ensures
        sp_save(spec_serialize(entries, date)) == Some((entries, date)),
{
    let t8 = seq!['\n'];
    let t7 = dec_chars(date.day as int) + t8;
    let t6 = day_prefix() + t7;
    let t5 = dec_chars(date.month as int) + t6;
    let t4 = month_prefix() + t5;
    let t3 = dec_chars(date.season as int) + t4;
    let t2 = season_prefix() + t3;
    let t1 = ser_entries(entries) + t2;
    let s = spec_serialize(entries, date);
    assert(s =~= items_header() + t1);
    lemma_sp_lit_exact(items_header(), t1);
    assert(t2[0] == '\n');
    assert(Seq::<(Item, usize)>::empty() + entries =~= entries);
    lemma_sp_entries_ser(entries, Seq::empty(), t2);
    lemma_sp_lit_exact(season_prefix(), t3);
    assert(t4[0] == '\n');
    assert(!is_digit('\n'));
    crate::text::lemma_sp_num_dec(date.season as int, t4);
    lemma_sp_lit_exact(month_prefix(), t5);
    assert(t6[0] == '\n');
    crate::text::lemma_sp_num_dec(date.month as int, t6);
    lemma_sp_lit_exact(day_prefix(), t7);
    assert(t8[0] == '\n');
    crate::text::lemma_sp_num_dec(date.day as int, t8);
    lemma_sp_lit_exact(t8, Seq::empty());
    assert(t7 =~= dec_chars(date.day as int) + (t8 + Seq::<char>::empty()));
    assert(t8 + Seq::<char>::empty() =~= t8);
}

/// Advances past `pat` if it stands at `pos` in `v`.
fn expect(v: &Vec<char>, pos: usize, pat: &Vec<char>) -> (r: Option<usize>)
    requires
        pos <= v@.len(),
    ensures
        r matches Some(p) ==> pos <= p <= v@.len() && sp_lit(v@.skip(pos as int), pat@) == Some(
            v@.skip(p as int),
        ),
        r is None ==> sp_lit(v@.skip(pos as int), pat@) is None,
{
    let ghost s = v@.skip(pos as int);
    let m = pat.len();
    if v.len() - pos < m {
        return None;
    }
    let mut i: usize = 0;
    while i < m
        invariant
            m == pat@.len(),
            pos <= v@.len(),
            v@.len() <= usize::MAX,
            pos + m <= v@.len(),
            s == v@.skip(pos as int),
            m <= s.len(),
            0 <= i <= m,
            forall|j: int| 0 <= j < i ==> s[j] == pat@[j],
        decreases m - i,
    {
        proof {
            assert(s[i as int] == v@[pos + i]);
        }
        if v[pos + i] != pat[i] {
            proof {
                assert(s.subrange(0, m as int)[i as int] == s[i as int]);
            }
            return None;
        }
        i = i + 1;
    }
    proof {
        assert(s.subrange(0, m as int) =~= pat@);
        assert(s.skip(m as int) =~= v@.skip(pos + m));
    }
    Some(pos + m)
}

/// Collects key characters up to the closing quote, starting at `pos`.
fn parse_quoted(v: &Vec<char>, pos: usize) -> (r: Option<(Vec<char>, usize)>)
    requires
        pos <= v@.len(),
    ensures
        r matches Some(p) ==> pos <= p.1 <= v@.len() && sp_quoted(v@.skip(pos as int)) == Some(
            (p.0@, v@.skip(p.1 as int)),
        ),
        r is None ==> sp_quoted(v@.skip(pos as int)) is None,
{
    let ghost start = pos as int;
    let mut k: Vec<char> = Vec::new();
    let mut i: usize = pos;
    loop
        invariant
            start == pos as int,
            pos <= i <= v@.len(),
            match sp_quoted(v@.skip(i as int)) {
                None => sp_quoted(v@.skip(start)) is None,
                Some(p2) => sp_quoted(v@.skip(start)) == Some((k@ + p2.0, p2.1)),
            },
        decreases v@.len() - i,
    {
        if i == v.len() {
            proof {
                assert(v@.skip(i as int).len() == 0);
            }
            return None;
        }
        proof {
            assert(v@.skip(i as int)[0] == v@[i as int]);
            assert(v@.skip(i as int).drop_first() =~= v@.skip(i + 1));
        }
        let c = v[i];
        if c == '"' {
            proof {
                assert(sp_quoted(v@.skip(i as int)) == Some(
                    (Seq::<char>::empty(), v@.skip(i + 1)),
                ));
                assert(k@ + Seq::<char>::empty() =~= k@);
            }
            return Some((k, i + 1));
        }
        proof {
            let o = sp_quoted(v@.skip(i + 1));
            if o is Some {
                let p2 = o.unwrap();
                assert(sp_quoted(v@.skip(i as int)) == Some((seq![c] + p2.0, p2.1)));
                assert(k@ + (seq![c] + p2.0) =~= k@.push(c) + p2.0);
            }
        }
        k.push(c);
        i = i + 1;
    }
}

/// Parses one ledger line starting at `pos`.
fn parse_entry(v: &Vec<char>, pos: usize) -> (r: Option<((Item, usize), usize)>)
    requires
        pos <= v@.len(),
    ensures
        r matches Some(p) ==> pos < p.1 <= v@.len() && sp_entry(v@.skip(pos as int)) == Some(
            (p.0, v@.skip(p.1 as int)),
        ),
        r is None ==> sp_entry(v@.skip(pos as int)) is None,
{
    let quote_pat = crate::text::str_to_chars("\"");
    let eq_pat = crate::text::str_to_chars(" = ");
    let nl_pat = crate::text::str_to_chars("\n");
    proof {
        reveal_strlit("\"");
        assert(quote_pat@ =~= seq!['"']);
        reveal_strlit(" = ");
        assert(eq_pat@ =~= seq![' ', '=', ' ']);
        reveal_strlit("\n");
        assert(nl_pat@ =~= seq!['\n']);
    }
    let p1 = match expect(v, pos, &quote_pat) {
        Some(p) => p,
        None => {
            return None;
        },
    };
    let (key, p2) = match parse_quoted(v, p1) {
        Some(p) => p,
        None => {
            return None;
        },
    };
    let item = match Item::parse_chars(&key) {
        Ok(item) => item,
        Err(_) => {
            return None;
        },
    };
    let p3 = match expect(v, p2, &eq_pat) {
        Some(p) => p,
        None => {
            return None;
        },
    };
    let (value, p4) = match crate::text::parse_num(v, p3) {
        Some(p) => p,
        None => {
            return None;
        },
    };
    if value > usize::MAX as u64 {
        return None;
    }
    let p5 = match expect(v, p4, &nl_pat) {
        Some(p) => p,
        None => {
            return None;
        },
    };
    Some(((item, value as usize), p5))
}

/// Turns the text document back into a save.
///
/// Succeeds exactly on the documents that `sp_save` accepts, and returns
/// the ledger content and date the document carries; anything else is a
/// `DeserializeError`.
#[verifier::rlimit(100)]
pub fn deserialize_save(s: &str) -> (r: Result<NativeSaveData, LoadError>)
    ensures
        r is Ok <==> sp_save(s@) is Some,
        r matches Ok(d) ==> sp_save(s@) matches Some(p) && d.spec_items()@ == p.0
            && d.spec_date() == p.1 && d.wf(),
        r matches Err(e) ==> e == LoadError::DeserializeError,
{
    let v = crate::text::str_to_chars(s);
    let items_pat = crate::text::str_to_chars("[items]\n");
    let season_pat = crate::text::str_to_chars("\n[date]\nseason = ");
    let month_pat = crate::text::str_to_chars("\nmonth = ");
    let day_pat = crate::text::str_to_chars("\nday = ");
    let nl_pat = crate::text::str_to_chars("\n");
    proof {
        reveal_strlit("[items]\n");
        assert(items_pat@ =~= items_header());
        reveal_strlit("\n[date]\nseason = ");
        assert(season_pat@ =~= season_prefix());
        reveal_strlit("\nmonth = ");
        assert(month_pat@ =~= month_prefix());
        reveal_strlit("\nday = ");
        assert(day_pat@ =~= day_prefix());
        reveal_strlit("\n");
        assert(nl_pat@ =~= seq!['\n']);
        assert(v@.skip(0) =~= v@);
    }
    let mut pos = match expect(&v, 0, &items_pat) {
        Some(p) => p,
        None => {
            return Err(LoadError::DeserializeError);
        },
    };
    let ghost table_start = pos as int;
    let mut ledger = crate::ledger::ItemManager::new();
    loop
        invariant
            pos <= v@.len(),
            v@ == s@,
            0 <= table_start <= v@.len(),
            sp_lit(v@, items_header()) == Some(v@.skip(table_start)),
            ledger.wf(),
            sp_entries(v@.skip(table_start), Seq::empty()) == sp_entries(
                v@.skip(pos as int),
                ledger@,
            ),
        ensures
            pos <= v@.len(),
            ledger.wf(),
            sp_entries(v@.skip(table_start), Seq::empty()) == Some((ledger@, v@.skip(pos as int))),
        decreases v@.len() - pos,
    {
        if pos == v.len() {
            proof {
                assert(v@.skip(pos as int).len() == 0);
            }
            break ;
        }
        proof {
            assert(v@.skip(pos as int)[0] == v@[pos as int]);
        }
        if v[pos] != '"' {
            break ;
        }
        let ((item, count), newpos) = match parse_entry(&v, pos) {
            Some(p) => p,
            None => {
                return Err(LoadError::DeserializeError);
            },
        };
        if ledger.contains_item(item) {
            proof {
                crate::ledger::lemma_ledger_map_contains(ledger@, item);
            }
            return Err(LoadError::DeserializeError);
        }
        proof {
            crate::ledger::lemma_ledger_map_contains(ledger@, item);
            assert(v@.skip(newpos as int).len() < v@.skip(pos as int).len());
        }
        ledger.add_items(item, count);
        pos = newpos;
    }
    let pos = match expect(&v, pos, &season_pat) {
        Some(p) => p,
        None => {
            return Err(LoadError::DeserializeError);
        },
    };
    let (season, pos) = match crate::text::parse_num(&v, pos) {
        Some(p) => p,
        None => {
            return Err(LoadError::DeserializeError);
        },
    };
    if season > u32::MAX as u64 {
        return Err(LoadError::DeserializeError);
    }
    let pos = match expect(&v, pos, &month_pat) {
        Some(p) => p,
        None => {
            return Err(LoadError::DeserializeError);
        },
    };
    let (month, pos) = match crate::text::parse_num(&v, pos) {
        Some(p) => p,
        None => {
            return Err(LoadError::DeserializeError);
        },
    };
    if month > u8::MAX as u64 {
        return Err(LoadError::DeserializeError);
    }
    let pos = match expect(&v, pos, &day_pat) {
        Some(p) => p,
        None => {
            return Err(LoadError::DeserializeError);
        },
    };
    let (day, pos) = match crate::text::parse_num(&v, pos) {
        Some(p) => p,
        None => {
            return Err(LoadError::DeserializeError);
        },
    };
    if day > u8::MAX as u64 {
        return Err(LoadError::DeserializeError);
    }
    let pos = match expect(&v, pos, &nl_pat) {
        Some(p) => p,
        None => {
            return Err(LoadError::DeserializeError);
        },
    };
    if pos != v.len() {
        return Err(LoadError::DeserializeError);
    }
    let date = GensoDate::new(season as u32, month as u8, day as u8);
    Ok(NativeSaveData::from_parts(ledger, date))
}

/// The UTF-8 bytes of a document string.
fn string_to_bytes(s: &String) -> (b: Vec<u8>)
    ensures
        b@ == encode_utf8(s@),
{
    vstd::slice::slice_to_vec(s.as_str().as_bytes())
}

/// Relies on `String::from_utf8`: it returns the string made of exactly
/// the given bytes, and fails exactly when they are not valid UTF-8.
#[verifier::external_body]
fn bytes_to_string(b: Vec<u8>) -> (r: Option<String>)
    ensures
        r is Some <==> valid_utf8(b@),
        r matches Some(s) ==> encode_utf8(s@) == b@,
{
    String::from_utf8(b).ok()
}

/// The persisted bytes of a ledger content and a date: the document,
/// UTF-8 encoded, then encrypted.
pub open spec fn spec_encode(entries: Seq<(Item, usize)>, date: GensoDate) -> Seq<u8> {
    crate::crypt::spec_encrypt(encode_utf8(spec_serialize(entries, date)))
}

/// What loading stored bytes yields: decryption failures are
/// `DecryptError`; text that is not UTF-8, not a well-formed document, or
/// carries an unknown item key is `DeserializeError`.
pub open spec fn spec_decode(c: Seq<u8>) -> Result<(Seq<(Item, usize)>, GensoDate), LoadError> {
    match crate::crypt::spec_decrypt(c) {
        None => Err(LoadError::DecryptError),
        Some(p) => if !valid_utf8(p) {
            Err(LoadError::DeserializeError)
        } else {
            match sp_save(decode_utf8(p)) {
                None => Err(LoadError::DeserializeError),
                Some(v) => Ok(v),
            }
        },
    }
}

/// Serializes and encrypts a save.
pub fn encode_save(data: &NativeSaveData) -> (c: Vec<u8>)
    ensures
        c@ == spec_encode(data.spec_items()@, data.spec_date()),
{
    let doc = serialize_save(data);
    let bytes = string_to_bytes(&doc);
    crate::crypt::encrypt(&bytes)
}

/// Decrypts and parses stored bytes back into a save.
pub fn decode_save(c: &Vec<u8>) -> (r: Result<NativeSaveData, LoadError>)
    ensures
        r is Ok <==> spec_decode(c@) is Ok,
        r matches Ok(d) ==> spec_decode(c@) matches Ok(v) && d.spec_items()@ == v.0
            && d.spec_date() == v.1 && d.wf(),
        r matches Err(e) ==> spec_decode(c@) == Err::<(Seq<(Item, usize)>, GensoDate), LoadError>(
            e,
        ),
{
    let plain = match crate::crypt::decrypt(c) {
        Ok(p) => p,
        Err(e) => {
            return Err(e);
        },
    };
    let doc = match bytes_to_string(plain) {
        Some(s) => s,
        None => {
            return Err(LoadError::DeserializeError);
        },
    };
    proof {
        vstd::utf8::encode_utf8_valid_utf8(doc@);
        vstd::utf8::encode_utf8_decode_utf8(doc@);
    }
    match deserialize_save(doc.as_str()) {
        Ok(d) => Ok(d),
        Err(e) => Err(e),
    }
}

/// The save round trip: decoding what was encoded returns exactly the
/// ledger content and the date, for every ledger with distinct keys and
/// every date. Nothing survives a failed stage, and nothing is lost by a
/// successful one.
pub proof fn lemma_save_round_trip(entries: Seq<(Item, usize)>, date: GensoDate)
    requires
        distinct_keys(entries),
    ensures
        spec_decode(spec_encode(entries, date)) == Ok::<(Seq<(Item, usize)>, GensoDate), LoadError>(
            (entries, date),
        ),
{
    let doc = spec_serialize(entries, date);
    let bytes = encode_utf8(doc);
    crate::crypt::lemma_decrypt_encrypt(bytes);
    vstd::utf8::encode_utf8_valid_utf8(doc);
    vstd::utf8::encode_utf8_decode_utf8(doc);
    lemma_sp_save_serialize(entries, date);
}

/// Corrupting any single byte of encoded save bytes makes decoding fail
/// with a decryption error — a damaged file can never be mistaken for a
/// save, let alone install one.
pub proof fn lemma_corrupt_save_rejected(
    entries: Seq<(Item, usize)>,
    date: GensoDate,
    c2: Seq<u8>,
    i: int,
)
    requires
        c2.len() == spec_encode(entries, date).len(),
        0 <= i < c2.len(),
        c2[i] != spec_encode(entries, date)[i],
        forall|j: int| 0 <= j < c2.len() && j != i ==> c2[j] == spec_encode(entries, date)[j],
    ensures
        spec_decode(c2) == Err::<(Seq<(Item, usize)>, GensoDate), LoadError>(
            LoadError::DecryptError,
        ),
{
    crate::crypt::lemma_corruption_detected(encode_utf8(spec_serialize(entries, date)), c2, i);
}

impl crate::save::SaveSlot {
    /// Serializes and encrypts the save currently in play, through the
    /// slot's scoped read access.
    pub fn save_to_bytes(&self) -> (c: Vec<u8>)
        requires
            self.is_installed(),
        ensures
            c@ == spec_encode(
                self.spec_current().spec_items()@,
                self.spec_current().spec_date(),
            ),
    {
        self.with(encode_save)
    }

    /// Decrypts, parses and installs loaded bytes. On any failure the
    /// slot is left exactly as it was: a corrupt file never clobbers a
    /// good in-memory session.
    pub fn load_from_bytes(&mut self, c: &Vec<u8>) -> (r: Result<(), LoadError>)
        ensures
            r is Ok <==> spec_decode(c@) is Ok,
            r is Ok ==> final(self).is_installed() && (spec_decode(c@) matches Ok(v)
                && final(self).spec_current().spec_items()@ == v.0
                && final(self).spec_current().spec_date() == v.1
                && final(self).spec_current().wf()),
            r matches Err(e) ==> *final(self) == *old(self) && spec_decode(c@) == Err::<
                (Seq<(Item, usize)>, GensoDate),
                LoadError,
            >(e),
    {
        match decode_save(c) {
            Ok(data) => {
                self.install_loaded(data);
                Ok(())
            },
            Err(e) => Err(e),
        }
    }
}

} // verus!
