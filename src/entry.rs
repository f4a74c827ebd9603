//! A single task and its one-line stored form.

use vstd::prelude::*;
use vstd::string::{StrSliceExecFns, StringExecFns};

use crate::config::Config;
use crate::dates::{due_of, parse_due};
use crate::error::TaskError;
use crate::text::{
    ascii_lower_seq, comma_free, comma_from, find_comma, int_text, lemma_comma_from_at,
    lemma_parse_int_text, lemma_parse_nat_text, lowercase_ascii, nat_text, parse_i64,
    parse_i64_spec, parse_usize, parse_usize_spec, push_char, push_int, push_nat, DELIMITER,
};

verus! {

/// One task: an id, a group label, a due time in seconds since the Unix
/// epoch, and a description.
pub struct Entry {
    pub id: usize,
    pub group: String,
    pub date: i64,
    pub desc: String,
}

/// What an `Entry` holds, as mathematical values.
pub struct EntryModel {
    pub id: usize,
    pub group: Seq<char>,
    pub date: i64,
    pub desc: Seq<char>,
}

impl View for Entry {
    type V = EntryModel;

    open spec fn view(&self) -> EntryModel {
        EntryModel { id: self.id, group: self.group@, date: self.date, desc: self.desc@ }
    }
}

/// The stored line of an entry: `id,group,due,description`.
pub open spec fn encode(e: EntryModel) -> Seq<char> {
    nat_text(e.id as nat) + seq![DELIMITER] + e.group + seq![DELIMITER] + int_text(e.date as int)
        + seq![DELIMITER] + e.desc
}

/// The entry that the stored line `s` holds: the text up to the first
/// delimiter is the id, up to the second the group (folded to lower case
/// where `fold`), up to the third the due time, and up to the fourth or the
/// end of the line the description. `None` where the line has fewer than
/// four fields or the id or due time is not an integer that fits.
pub open spec fn decode(s: Seq<char>, fold: bool) -> Option<EntryModel> {
    let e1 = comma_from(s, 0);
    let e2 = comma_from(s, e1 + 1);
    let e3 = comma_from(s, e2 + 1);
    let e4 = comma_from(s, e3 + 1);
    if e1 >= s.len() || e2 >= s.len() || e3 >= s.len() {
        None
    } else {
        let group = s.subrange(e1 + 1, e2);
        match (parse_usize_spec(s.subrange(0, e1)), parse_i64_spec(s.subrange(e2 + 1, e3))) {
            (Some(id), Some(date)) => Some(
                EntryModel {
                    id,
                    group: if fold { ascii_lower_seq(group) } else { group },
                    date,
                    desc: s.subrange(e3 + 1, e4),
                },
            ),
            _ => None,
        }
    }
}

/// New values for some fields of an entry; a field left `None` is kept.
/// The date is the text that the user typed.
pub struct FieldUpdates {
    pub group: Option<String>,
    pub date: Option<String>,
    pub desc: Option<String>,
}

/// `e` with the fields of `u` that are given, the due time being `due`.
pub open spec fn updated(e: EntryModel, u: FieldUpdates, due: i64) -> EntryModel {
    EntryModel {
        id: e.id,
        group: match u.group {
            Some(g) => g@,
            None => e.group,
        },
        date: due,
        desc: match u.desc {
            Some(d) => d@,
            None => e.desc,
        },
    }
}

/// The due time that `u` asks for, where it gives a date that reads, or
/// `date` where it gives none.
pub open spec fn new_due(u: FieldUpdates, date: i64) -> Option<i64> {
    match u.date {
        Some(t) => due_of(t@),
        None => Some(date),
    }
}

/// Decoding the stored line of an entry whose group and description hold no
/// delimiter gives the entry back.
pub proof fn lemma_round_trip(e: EntryModel)
    requires
        comma_free(e.group),
        comma_free(e.desc),
    ensures
        decode(encode(e), false) == Some(e),
{
    let a = nat_text(e.id as nat);
    let d = int_text(e.date as int);
    let s = encode(e);
    lemma_parse_nat_text(e.id);
    lemma_parse_int_text(e.date);
    let e1 = a.len() as int;
    let e2 = e1 + 1 + e.group.len();
    let e3 = e2 + 1 + d.len();
    let e4 = s.len() as int;
    assert(s.subrange(0, e1) =~= a);
    assert(s.subrange(e1 + 1, e2) =~= e.group);
    assert(s.subrange(e2 + 1, e3) =~= d);
    assert(s.subrange(e3 + 1, e4) =~= e.desc);
    assert forall|k: int| 0 <= k < e1 implies s[k] != DELIMITER by {
        assert(s[k] == a[k]);
    }
    lemma_comma_from_at(s, 0, e1);
    assert forall|k: int| e1 + 1 <= k < e2 implies s[k] != DELIMITER by {
        assert(s[k] == e.group[k - e1 - 1]);
    }
    lemma_comma_from_at(s, e1 + 1, e2);
    assert forall|k: int| e2 + 1 <= k < e3 implies s[k] != DELIMITER by {
        assert(s[k] == d[k - e2 - 1]);
    }
    lemma_comma_from_at(s, e2 + 1, e3);
    assert forall|k: int| e3 + 1 <= k < e4 implies s[k] != DELIMITER by {
        assert(s[k] == e.desc[k - e3 - 1]);
    }
    lemma_comma_from_at(s, e3 + 1, e4);
}

impl Entry {
    /// Reads an entry from its stored line, folding the group to lower case
    /// where the configuration asks for it.
    pub fn from_entry_line(line: &str, cfg: &Config) -> (r: Result<Entry, TaskError>)
        ensures
            match decode(line@, cfg.ignore_group_case) {
                Some(m) => r matches Ok(e) && e@ == m,
                None => r == Err::<Entry, TaskError>(TaskError::MalformedRecord),
            },
    {
        let n = line.unicode_len();
        let e1 = find_comma(line, 0);
        if e1 >= n {
            return Err(TaskError::MalformedRecord);
        }
        let e2 = find_comma(line, e1 + 1);
        if e2 >= n {
            return Err(TaskError::MalformedRecord);
        }
        let e3 = find_comma(line, e2 + 1);
        if e3 >= n {
            return Err(TaskError::MalformedRecord);
        }
        let e4 = find_comma(line, e3 + 1);
        let id = match parse_usize(line.substring_char(0, e1)) {
            Some(v) => v,
            None => return Err(TaskError::MalformedRecord),
        };
        let date = match parse_i64(line.substring_char(e2 + 1, e3)) {
            Some(v) => v,
            None => return Err(TaskError::MalformedRecord),
        };
        let g = line.substring_char(e1 + 1, e2);
        let group = if cfg.ignore_group_case {
            lowercase_ascii(g)
        } else {
            String::from_str(g)
        };
        let desc = String::from_str(line.substring_char(e3 + 1, e4));
        Ok(Entry { id, group, date, desc })
    }

    /// An entry with the given fields.
    pub fn from_elements(id: usize, group: String, date: i64, desc: String) -> (r: Entry)
        ensures
            r@ == (EntryModel { id, group: group@, date, desc: desc@ }),
    {
        Entry { id, group, date, desc }
    }

    /// Sets the fields that `updates` gives. A date is read first; where it
    /// does not read, the entry is left as it was.
    pub fn update_values(&mut self, updates: &FieldUpdates) -> (r: Result<(), TaskError>)
        ensures
            match new_due(*updates, old(self).date) {
                Some(due) => r is Ok && final(self)@ == updated(old(self)@, *updates, due),
                None => r == Err::<(), TaskError>(TaskError::InvalidDateFormat) && final(self)@
                    == old(self)@,
            },
    {
        let due = match &updates.date {
            Some(t) => match parse_due(t.as_str()) {
                Some(d) => d,
                None => return Err(TaskError::InvalidDateFormat),
            },
            None => self.date,
        };
        match &updates.group {
            Some(g) => {
                self.group = g.clone();
            },
            None => {},
        }
        match &updates.desc {
            Some(d) => {
                self.desc = d.clone();
            },
            None => {},
        }
        self.date = due;
        Ok(())
    }

    /// The stored line of this entry.
    pub fn as_file_line(&self) -> (r: String)
        ensures
            r@ == encode(self@),
    {
        let mut res = String::new();
        push_nat(&mut res, self.id as u64);
        push_char(&mut res, DELIMITER);
        res.append(self.group.as_str());
        push_char(&mut res, DELIMITER);
        push_int(&mut res, self.date);
        push_char(&mut res, DELIMITER);
        res.append(self.desc.as_str());
        assert(res@ =~= encode(self@));
        res
    }
}

} // verus!
