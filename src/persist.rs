//! The task file: one stored line per entry.

use vstd::prelude::*;
use vstd::string::{StrSliceExecFns, StringExecFns};

use crate::config::Config;
use crate::entry::{decode, encode, lemma_round_trip, Entry, EntryModel};
use crate::error::TaskError;
use crate::store::models;
use crate::text::{
    comma_free, int_text, lemma_int_text_chars, lemma_nat_text, nat_text, push_char, DELIMITER,
};

verus! {

/// The pieces of `s` between line feeds; there is always at least one.
pub open spec fn pieces(s: Seq<char>) -> Seq<Seq<char>>
    decreases s.len(),
{
    if s.len() == 0 {
        seq![Seq::empty()]
    } else {
        let p = pieces(s.drop_last());
        if s.last() == '\n' {
            p.push(Seq::empty())
        } else {
            p.update(p.len() - 1, p.last().push(s.last()))
        }
    }
}

/// `l` without one carriage return at its end.
pub open spec fn strip_cr(l: Seq<char>) -> Seq<char> {
    if l.len() > 0 && l.last() == '\r' {
        l.drop_last()
    } else {
        l
    }
}

/// `ls` without the empty lines at its end.
pub open spec fn drop_blank_tail(ls: Seq<Seq<char>>) -> Seq<Seq<char>>
    decreases ls.len(),
{
    if ls.len() > 0 && ls.last().len() == 0 {
        drop_blank_tail(ls.drop_last())
    } else {
        ls
    }
}

/// The lines of the file text `s` that hold records: split at line feeds,
/// each without a closing carriage return, blank lines at the end left out.
pub open spec fn record_lines(s: Seq<char>) -> Seq<Seq<char>> {
    drop_blank_tail(pieces(s).map_values(|l: Seq<char>| strip_cr(l)))
}

/// The entries that the lines `ls` hold, or `None` where one does not decode.
pub open spec fn decode_all(ls: Seq<Seq<char>>, fold: bool) -> Option<Seq<EntryModel>>
    decreases ls.len(),
{
    if ls.len() == 0 {
        Some(Seq::empty())
    } else {
        match (decode_all(ls.drop_last(), fold), decode(ls.last(), fold)) {
            (Some(es), Some(e)) => Some(es.push(e)),
            _ => None,
        }
    }
}

/// The lines `ls` joined by line feeds, with none at the end.
pub open spec fn join_lines(ls: Seq<Seq<char>>) -> Seq<char>
    decreases ls.len(),
{
    if ls.len() == 0 {
        Seq::empty()
    } else if ls.len() == 1 {
        ls[0]
    } else {
        join_lines(ls.drop_last()) + seq!['\n'] + ls.last()
    }
}

/// The text of the task file that holds `es`.
pub open spec fn store_text_of(es: Seq<EntryModel>) -> Seq<char> {
    join_lines(es.map_values(|e: EntryModel| encode(e)))
}

proof fn lemma_pieces_nonempty(s: Seq<char>)
    ensures
        pieces(s).len() >= 1,
    decreases s.len(),
{
    if s.len() > 0 {
        lemma_pieces_nonempty(s.drop_last());
    }
}

/// Splits `text` at line feeds.
fn split_pieces(text: &str) -> (r: Vec<String>)
    ensures
        r@.map_values(|l: String| l@) == pieces(text@),
{
    let n = text.unicode_len();
    let mut done: Vec<String> = Vec::new();
    let mut cur = String::new();
    let mut i: usize = 0;
    assert(text@.take(0) =~= Seq::<char>::empty());
    while i < n
        invariant
            n == text@.len(),
            i <= n,
            done@.map_values(|l: String| l@).push(cur@) == pieces(text@.take(i as int)),
        decreases n - i,
    {
        let c = text.get_char(i);
        let ghost before = done@.map_values(|l: String| l@).push(cur@);
        proof {
            assert(text@.take(i + 1).drop_last() =~= text@.take(i as int));
            assert(text@.take(i + 1).last() == c);
        }
        if c == '\n' {
            done.push(cur);
            cur = String::new();
            assert(done@.map_values(|l: String| l@).push(cur@) =~= before.push(Seq::empty()));
        } else {
            push_char(&mut cur, c);
            assert(done@.map_values(|l: String| l@).push(cur@) =~= before.update(
                before.len() - 1,
                before.last().push(c),
            ));
        }
        i = i + 1;
    }
    assert(text@.take(n as int) =~= text@);
    done.push(cur);
    done
}

/// Whether `l` is empty once a closing carriage return is taken off.
fn is_blank(l: &String) -> (r: bool)
    ensures
        r == (strip_cr(l@).len() == 0),
{
    let s = l.as_str();
    let n = s.unicode_len();
    n == 0 || (n == 1 && s.get_char(0) == '\r')
}

/// `l` without a closing carriage return.
fn without_cr(l: &String) -> (r: &str)
    ensures
        r@ == strip_cr(l@),
{
    let s = l.as_str();
    let n = s.unicode_len();
    if n > 0 && s.get_char(n - 1) == '\r' {
        s.substring_char(0, n - 1)
    } else {
        s
    }
}

proof fn lemma_drop_blank_tail_prefix(ls: Seq<Seq<char>>, m: int)
    requires
        0 <= m <= ls.len(),
        forall|k: int| m <= k < ls.len() ==> (#[trigger] ls[k]).len() == 0,
        m == 0 || ls[m - 1].len() != 0,
    ensures
        drop_blank_tail(ls) == ls.take(m),
    decreases ls.len(),
{
    if ls.len() > m {
        assert(ls.drop_last().take(m) =~= ls.take(m));
        lemma_drop_blank_tail_prefix(ls.drop_last(), m);
    } else {
        assert(ls.take(m) =~= ls);
    }
}

/// Reads every entry of the task file text `text`. Fails on the first line
/// that is not a record.
pub fn load_entries(text: &str, cfg: &Config) -> (r: Result<Vec<Entry>, TaskError>)
    ensures
        match decode_all(record_lines(text@), cfg.ignore_group_case) {
            Some(ms) => r matches Ok(v) && models(v@) == ms,
            None => r == Err::<Vec<Entry>, TaskError>(TaskError::MalformedRecord),
        },
{
    let ps = split_pieces(text);
    let ghost ls = pieces(text@).map_values(|l: Seq<char>| strip_cr(l));
    let mut m: usize = ps.len();
    while m > 0 && is_blank(&ps[m - 1])
        invariant
            m <= ps@.len(),
            ps@.map_values(|l: String| l@) == pieces(text@),
            ls == pieces(text@).map_values(|l: Seq<char>| strip_cr(l)),
            ls.len() == ps@.len(),
            forall|k: int| m <= k < ls.len() ==> (#[trigger] ls[k]).len() == 0,
        decreases m,
    {
        assert(pieces(text@)[m - 1] == ps@[m - 1]@);
        m = m - 1;
    }
    proof {
        if m > 0 {
            assert(pieces(text@)[m - 1] == ps@[m - 1]@);
        }
        lemma_drop_blank_tail_prefix(ls, m as int);
    }
    let ghost recs = ls.take(m as int);
    let mut out: Vec<Entry> = Vec::new();
    let mut j: usize = 0;
    while j < m
        invariant
            m <= ps@.len(),
            j <= m,
            ps@.map_values(|l: String| l@) == pieces(text@),
            ls == pieces(text@).map_values(|l: Seq<char>| strip_cr(l)),
            ls.len() == ps@.len(),
            recs == ls.take(m as int),
            out@.len() == j,
            recs == record_lines(text@),
            decode_all(recs.take(j as int), cfg.ignore_group_case) == Some(models(out@)),
        decreases m - j,
    {
        let line = without_cr(&ps[j]);
        proof {
            assert(pieces(text@)[j as int] == ps@[j as int]@);
            assert(recs[j as int] == strip_cr(ps@[j as int]@));
            assert(recs.take(j + 1).drop_last() =~= recs.take(j as int));
            assert(recs.take(j + 1).last() == recs[j as int]);
        }
        match Entry::from_entry_line(line, cfg) {
            Ok(e) => {
                let ghost before = models(out@);
                out.push(e);
                assert(models(out@) =~= before.push(out@[j as int]@));
            },
            Err(err) => {
                proof {
                    lemma_decode_all_extends(recs, j as int + 1, m as int, cfg.ignore_group_case);
                }
                return Err(err);
            },
        }
        j = j + 1;
    }
    assert(recs.take(m as int) =~= recs);
    Ok(out)
}

/// Where some prefix of `ls` does not decode, neither does `ls`.
proof fn lemma_decode_all_extends(ls: Seq<Seq<char>>, j: int, m: int, fold: bool)
    requires
        0 <= j <= m == ls.len(),
        decode_all(ls.take(j), fold) is None,
    ensures
        decode_all(ls, fold) is None,
    decreases m - j,
{
    if j < m {
        assert(ls.take(j + 1).drop_last() =~= ls.take(j));
        lemma_decode_all_extends(ls, j + 1, m, fold);
    } else {
        assert(ls.take(j) =~= ls);
    }
}

/// The text of the task file that holds `entries`: their stored lines
/// joined by line feeds, with none at the end.
pub fn store_text(entries: &Vec<Entry>) -> (r: String)
    ensures
        r@ == store_text_of(models(entries@)),
{
    let ghost es = models(entries@).map_values(|e: EntryModel| encode(e));
    let mut out = String::new();
    let mut i: usize = 0;
    while i < entries.len()
        invariant
            i <= entries.len(),
            es == models(entries@).map_values(|e: EntryModel| encode(e)),
            out@ == join_lines(es.take(i as int)),
        decreases entries.len() - i,
    {
        proof {
            assert(es.take(i + 1).drop_last() =~= es.take(i as int));
        }
        if i > 0 {
            push_char(&mut out, '\n');
        }
        let line = entries[i].as_file_line();
        out.append(line.as_str());
        proof {
            if i == 0 {
                assert(out@ =~= es.take(1)[0]);
            }
        }
        i = i + 1;
    }
    assert(es.take(i as int) =~= es);
    out
}

/// Whether `s` holds no line feed.
pub open spec fn single_line(s: Seq<char>) -> bool {
    forall|i: int| 0 <= i < s.len() ==> #[trigger] s[i] != '\n'
}

/// Whether entry `e` comes back unchanged from its stored line within a
/// file: neither text field holds a delimiter or a line feed, and the
/// description does not end in a carriage return.
pub open spec fn storable(e: EntryModel) -> bool {
    &&& comma_free(e.group)
    &&& comma_free(e.desc)
    &&& single_line(e.group)
    &&& single_line(e.desc)
    &&& !(e.desc.len() > 0 && e.desc.last() == '\r')
}

proof fn lemma_pieces_append(s: Seq<char>, l: Seq<char>)
    requires
        single_line(l),
    ensures
        pieces(s + l) == pieces(s).update(pieces(s).len() - 1, pieces(s).last() + l),
    decreases l.len(),
{
    lemma_pieces_nonempty(s);
    if l.len() == 0 {
        assert(s + l =~= s);
        assert(pieces(s).last() + l =~= pieces(s).last());
        assert(pieces(s).update(pieces(s).len() - 1, pieces(s).last()) =~= pieces(s));
    } else {
        let k = l.drop_last();
        assert(single_line(k)) by {
            assert forall|i: int| 0 <= i < k.len() implies #[trigger] k[i] != '\n' by {
                assert(k[i] == l[i]);
            }
        }
        lemma_pieces_append(s, k);
        assert((s + l).drop_last() =~= s + k);
        assert((s + l).last() == l.last());
        assert(l.last() == l[l.len() - 1]);
        assert((pieces(s).last() + k).push(l.last()) =~= pieces(s).last() + l);
        assert(pieces(s + l) =~= pieces(s).update(pieces(s).len() - 1, pieces(s).last() + l));
    }
}

/// Splitting lines joined by line feeds gives them back.
proof fn lemma_pieces_join(ls: Seq<Seq<char>>)
    requires
        ls.len() >= 1,
        forall|i: int| 0 <= i < ls.len() ==> single_line(#[trigger] ls[i]),
    ensures
        pieces(join_lines(ls)) == ls,
    decreases ls.len(),
{
    if ls.len() == 1 {
        lemma_pieces_append(Seq::empty(), ls[0]);
        assert(Seq::<char>::empty() + ls[0] =~= ls[0]);
        assert(pieces(Seq::<char>::empty()).update(0, Seq::<char>::empty() + ls[0]) =~= ls);
    } else {
        let dl = ls.drop_last();
        assert forall|i: int| 0 <= i < dl.len() implies single_line(#[trigger] dl[i]) by {
            assert(dl[i] == ls[i]);
        }
        lemma_pieces_join(dl);
        let j = join_lines(dl).push('\n');
        assert(join_lines(dl) + seq!['\n'] =~= j);
        assert(j.drop_last() =~= join_lines(dl));
        assert(pieces(j) == dl.push(Seq::empty()));
        assert(single_line(ls[ls.len() - 1]));
        lemma_pieces_append(j, ls.last());
        assert(Seq::<char>::empty() + ls.last() =~= ls.last());
        assert(dl.push(Seq::empty()).update(dl.len() as int, ls.last()) =~= ls);
    }
}

proof fn lemma_encode_line(e: EntryModel)
    requires
        storable(e),
    ensures
        single_line(encode(e)),
        encode(e).len() > 0,
        encode(e).last() != '\r',
{
    let a = nat_text(e.id as nat);
    let d = int_text(e.date as int);
    let s = encode(e);
    lemma_nat_text(e.id as nat);
    lemma_int_text_chars(e.date as int);
    let e1 = a.len() as int;
    let e2 = e1 + 1 + e.group.len();
    let e3 = e2 + 1 + d.len();
    assert forall|k: int| 0 <= k < s.len() implies #[trigger] s[k] != '\n' by {
        if k < e1 {
            assert(s[k] == a[k]);
        } else if e1 < k < e2 {
            assert(s[k] == e.group[k - e1 - 1]);
        } else if e2 < k < e3 {
            assert(s[k] == d[k - e2 - 1]);
        } else if e3 < k {
            assert(s[k] == e.desc[k - e3 - 1]);
        }
    }
    if e.desc.len() > 0 {
        assert(s.last() == e.desc.last());
    } else {
        assert(s.last() == DELIMITER);
    }
}

/// Loading the text that saving a list of entries writes gives the same
/// entries back, where every entry is storable and group names are kept as
/// written.
pub proof fn lemma_store_round_trip(es: Seq<EntryModel>)
    requires
        forall|i: int| 0 <= i < es.len() ==> storable(#[trigger] es[i]),
    ensures
        decode_all(record_lines(store_text_of(es)), false) == Some(es),
{
    let ls = es.map_values(|e: EntryModel| encode(e));
    assert forall|i: int| 0 <= i < ls.len() implies single_line(#[trigger] ls[i]) && ls[i].len()
        > 0 && ls[i].last() != '\r' by {
        lemma_encode_line(es[i]);
    }
    if es.len() == 0 {
        assert(ls =~= Seq::<Seq<char>>::empty());
        assert(store_text_of(es) == Seq::<char>::empty());
        let p = pieces(Seq::<char>::empty()).map_values(|l: Seq<char>| strip_cr(l));
        assert(p.len() == 1 && p.last().len() == 0);
        assert(p.drop_last() =~= Seq::<Seq<char>>::empty());
        assert(drop_blank_tail(p.drop_last()) == p.drop_last());
        assert(record_lines(store_text_of(es)) == Seq::<Seq<char>>::empty());
    } else {
        lemma_pieces_join(ls);
        let m = ls.map_values(|l: Seq<char>| strip_cr(l));
        assert(m =~= ls);
        assert(drop_blank_tail(ls) == ls);
        lemma_decode_all_encoded(es, ls);
    }
}

proof fn lemma_decode_all_encoded(es: Seq<EntryModel>, ls: Seq<Seq<char>>)
    requires
        forall|i: int| 0 <= i < es.len() ==> storable(#[trigger] es[i]),
        ls == es.map_values(|e: EntryModel| encode(e)),
    ensures
        decode_all(ls, false) == Some(es),
    decreases es.len(),
{
    if es.len() > 0 {
        let de = es.drop_last();
        assert forall|i: int| 0 <= i < de.len() implies storable(#[trigger] de[i]) by {
            assert(de[i] == es[i]);
        }
        assert(ls.drop_last() =~= de.map_values(|e: EntryModel| encode(e)));
        lemma_decode_all_encoded(de, ls.drop_last());
        assert(storable(es[es.len() - 1]));
        lemma_round_trip(es.last());
        assert(de.push(es.last()) =~= es);
    } else {
        assert(ls =~= Seq::<Seq<char>>::empty());
    }
}

} // verus!
