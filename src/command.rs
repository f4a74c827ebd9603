//! Commands: reading them from the command-line words and applying them.

use vstd::prelude::*;
use vstd::string::{StrSliceExecFns, StringExecFns};

use crate::dates::{due_of, parse_due};
use crate::entry::{new_due, updated, Entry, EntryModel, FieldUpdates};
use crate::error::TaskError;
use crate::store::{
    add_entry, delete_entry, first_with_id, has_id, max_id, models, reindex, reindexed,
    update_entry,
};
use crate::text::{char_from, find_char, parse_usize, parse_usize_spec, same_text};

verus! {

/// One command of the task list.
pub enum Command {
    /// Add an entry: group, due date text, description.
    Add(String, String, String),
    /// Change some fields of the entry with this id.
    Mod(usize, FieldUpdates),
    /// Delete the entry with this id.
    Del(usize),
    /// List the entries, by group or, where `true`, in due order.
    List(bool),
    /// Renumber the entries from 0.
    Reindex,
    /// Not a command: show the usage.
    Unknown,
}

/// The key and value of a `key=value` word: exactly one `=`, neither first
/// nor last.
pub open spec fn split_token(t: Seq<char>) -> Option<(Seq<char>, Seq<char>)> {
    let p = char_from(t, 0, '=');
    if 0 < p && p + 1 < t.len() && char_from(t, p + 1, '=') == t.len() {
        Some((t.subrange(0, p), t.subrange(p + 1, t.len() as int)))
    } else {
        None
    }
}

/// The changes that the `key=value` words `ts` ask for, each later word
/// overriding an earlier one with the same key; `None` where a word is
/// malformed or its key is not `group`, `date` or `desc`.
pub open spec fn updates_of(ts: Seq<Seq<char>>) -> Option<
    (Option<Seq<char>>, Option<Seq<char>>, Option<Seq<char>>),
>
    decreases ts.len(),
{
    if ts.len() == 0 {
        Some((None, None, None))
    } else {
        match (updates_of(ts.drop_last()), split_token(ts.last())) {
            (Some(u), Some(kv)) => if kv.0 == "group"@ {
                Some((Some(kv.1), u.1, u.2))
            } else if kv.0 == "date"@ {
                Some((u.0, Some(kv.1), u.2))
            } else if kv.0 == "desc"@ {
                Some((u.0, u.1, Some(kv.1)))
            } else {
                None
            },
            _ => None,
        }
    }
}

pub open spec fn opt_view(o: Option<String>) -> Option<Seq<char>> {
    match o {
        Some(s) => Some(s@),
        None => None,
    }
}

/// The three fields of `u`, as text.
pub open spec fn updates_view(u: FieldUpdates) -> (
    Option<Seq<char>>,
    Option<Seq<char>>,
    Option<Seq<char>>,
) {
    (opt_view(u.group), opt_view(u.date), opt_view(u.desc))
}

pub open spec fn words(args: Seq<String>) -> Seq<Seq<char>> {
    args.map_values(|a: String| a@)
}

/// The words after the first two.
pub open spec fn words_after_id(args: Seq<String>) -> Seq<Seq<char>> {
    if args.len() >= 2 {
        words(args).skip(2)
    } else {
        Seq::empty()
    }
}

/// Where some prefix of `ts` is not a list of changes, neither is `ts`.
proof fn lemma_updates_of_extends(ts: Seq<Seq<char>>, j: int)
    requires
        0 <= j <= ts.len(),
        updates_of(ts.take(j)) is None,
    ensures
        updates_of(ts) is None,
    decreases ts.len() - j,
{
    if j < ts.len() {
        assert(ts.take(j + 1).drop_last() =~= ts.take(j));
        lemma_updates_of_extends(ts, j + 1);
    } else {
        assert(ts.take(j) =~= ts);
    }
}

/// Reads the `key=value` words of a `mod` command, which follow the command
/// word and the id.
pub fn parse_mod_args(args: &Vec<String>) -> (r: Result<FieldUpdates, TaskError>)
    ensures
        match updates_of(words_after_id(args@)) {
            Some(u) => r matches Ok(f) && updates_view(f) == u,
            None => r == Err::<FieldUpdates, TaskError>(TaskError::InvalidArgument),
        },
{
    let ghost ts = words_after_id(args@);
    let mut res = FieldUpdates { group: None, date: None, desc: None };
    let mut i: usize = 2;
    if args.len() <= 2 {
        assert(ts =~= Seq::<Seq<char>>::empty());
        return Ok(res);
    }
    while i < args.len()
        invariant
            2 <= i <= args@.len(),
            ts == words(args@).skip(2),
            ts.len() == args@.len() - 2,
            updates_of(ts.take(i - 2)) == Some(updates_view(res)),
        decreases args.len() - i,
    {
        proof {
            assert(ts.take(i - 1).drop_last() =~= ts.take(i - 2));
            assert(ts.take(i - 1).last() == args@[i as int]@);
        }
        let t = args[i].as_str();
        let n = t.unicode_len();
        let p = find_char(t, 0, '=');
        if p == 0 || p >= n || p + 1 >= n || find_char(t, p + 1, '=') != n {
            proof {
                lemma_updates_of_extends(ts, i - 1);
            }
            return Err(TaskError::InvalidArgument);
        }
        let key = t.substring_char(0, p);
        let val = String::from_str(t.substring_char(p + 1, n));
        if same_text(key, "group") {
            res.group = Some(val);
        } else if same_text(key, "date") {
            res.date = Some(val);
        } else if same_text(key, "desc") {
            res.desc = Some(val);
        } else {
            proof {
                lemma_updates_of_extends(ts, i - 1);
            }
            return Err(TaskError::InvalidArgument);
        }
        i = i + 1;
    }
    assert(ts.take(i - 2) =~= ts);
    Ok(res)
}

pub open spec fn is_list_word(w: Seq<char>) -> bool {
    w == "list"@ || w == "lis"@ || w == "li"@ || w == "l"@ || w == "ls"@
}

pub open spec fn is_add_word(w: Seq<char>) -> bool {
    w == "add"@ || w == "ad"@ || w == "a"@
}

pub open spec fn is_mod_word(w: Seq<char>) -> bool {
    w == "mod"@ || w == "mo"@ || w == "m"@
}

pub open spec fn is_del_word(w: Seq<char>) -> bool {
    w == "del"@ || w == "de"@ || w == "d"@ || w == "rm"@
}

/// Whether `r` is the command that the words `ws` ask for (option words
/// already taken out, `sorted` telling whether a sort flag was among them).
pub open spec fn is_command_of(ws: Seq<Seq<char>>, sorted: bool, args: Seq<String>, r: Result<Command, TaskError>) -> bool {
    if ws.len() == 0 {
        r matches Ok(Command::Unknown)
    } else if is_list_word(ws[0]) {
        r matches Ok(Command::List(s)) && s == sorted
    } else if is_add_word(ws[0]) {
        if ws.len() < 4 {
            r == Err::<Command, TaskError>(TaskError::InvalidArgument)
        } else {
            r matches Ok(Command::Add(g, d, x)) && g@ == ws[1] && d@ == ws[2] && x@ == ws[3]
        }
    } else if is_mod_word(ws[0]) {
        if ws.len() >= 3 && parse_usize_spec(ws[1]) is Some && updates_of(words_after_id(args)) is Some {
            r matches Ok(Command::Mod(id, f)) && Some(id) == parse_usize_spec(ws[1])
                && Some(updates_view(f)) == updates_of(words_after_id(args))
        } else {
            r == Err::<Command, TaskError>(TaskError::InvalidArgument)
        }
    } else if is_del_word(ws[0]) {
        if ws.len() >= 2 && parse_usize_spec(ws[1]) is Some {
            r matches Ok(Command::Del(id)) && Some(id) == parse_usize_spec(ws[1])
        } else {
            r == Err::<Command, TaskError>(TaskError::InvalidArgument)
        }
    } else if ws[0] == "reindex"@ {
        r matches Ok(Command::Reindex)
    } else {
        r matches Ok(Command::Unknown)
    }
}

/// Reads the command that the words `args` ask for: the command word, then
/// its arguments. `sorted` tells whether the sort option was given.
pub fn parse_command(args: &Vec<String>, sorted: bool) -> (r: Result<Command, TaskError>)
    ensures
        is_command_of(words(args@), sorted, args@, r),
{
    let ghost ws = words(args@);
    if args.len() == 0 {
        return Ok(Command::Unknown);
    }
    assert(ws[0] == args@[0]@);
    let w = args[0].as_str();
    if same_text(w, "list") || same_text(w, "lis") || same_text(w, "li") || same_text(w, "l")
        || same_text(w, "ls") {
        Ok(Command::List(sorted))
    } else if same_text(w, "add") || same_text(w, "ad") || same_text(w, "a") {
        if args.len() < 4 {
            return Err(TaskError::InvalidArgument);
        }
        assert(ws[1] == args@[1]@ && ws[2] == args@[2]@ && ws[3] == args@[3]@);
        Ok(Command::Add(args[1].clone(), args[2].clone(), args[3].clone()))
    } else if same_text(w, "mod") || same_text(w, "mo") || same_text(w, "m") {
        if args.len() < 3 {
            return Err(TaskError::InvalidArgument);
        }
        assert(ws[1] == args@[1]@);
        let id = match parse_usize(args[1].as_str()) {
            Some(v) => v,
            None => return Err(TaskError::InvalidArgument),
        };
        match parse_mod_args(args) {
            Ok(f) => Ok(Command::Mod(id, f)),
            Err(e) => Err(e),
        }
    } else if same_text(w, "del") || same_text(w, "de") || same_text(w, "d") || same_text(w, "rm") {
        if args.len() < 2 {
            return Err(TaskError::InvalidArgument);
        }
        assert(ws[1] == args@[1]@);
        match parse_usize(args[1].as_str()) {
            Some(v) => Ok(Command::Del(v)),
            None => Err(TaskError::InvalidArgument),
        }
    } else if same_text(w, "reindex") {
        Ok(Command::Reindex)
    } else {
        Ok(Command::Unknown)
    }
}

/// Applies `cmd` to `entries`, and tells whether the file must be rewritten.
/// A failing command changes nothing.
pub fn apply_command(entries: &mut Vec<Entry>, cmd: &Command) -> (r: Result<bool, TaskError>)
    requires
        cmd is Add ==> max_id(models(old(entries)@)) < usize::MAX,
    ensures
        match cmd {
            Command::Add(g, d, x) => match due_of(d@) {
                Some(due) => r == Ok::<bool, TaskError>(true) && models(final(entries)@)
                    == models(old(entries)@).push(
                    EntryModel {
                        id: (max_id(models(old(entries)@)) + 1) as usize,
                        group: g@,
                        date: due,
                        desc: x@,
                    },
                ),
                None => r == Err::<bool, TaskError>(TaskError::InvalidDateFormat)
                    && final(entries)@ == old(entries)@,
            },
            Command::Mod(id, u) => if !has_id(models(old(entries)@), *id) {
                r == Err::<bool, TaskError>(TaskError::EntryNotFound) && final(entries)@
                    == old(entries)@
            } else {
                let i = first_with_id(models(old(entries)@), *id);
                match new_due(*u, old(entries)@[i].date) {
                    Some(due) => r == Ok::<bool, TaskError>(true) && models(final(entries)@)
                        == models(old(entries)@).update(
                        i,
                        updated(models(old(entries)@)[i], *u, due),
                    ),
                    None => r == Err::<bool, TaskError>(TaskError::InvalidDateFormat) && models(
                        final(entries)@,
                    ) == models(old(entries)@),
                }
            },
            Command::Del(id) => if !has_id(models(old(entries)@), *id) {
                r == Err::<bool, TaskError>(TaskError::EntryNotFound) && final(entries)@
                    == old(entries)@
            } else {
                r == Ok::<bool, TaskError>(true) && models(final(entries)@) == models(
                    old(entries)@,
                ).remove(first_with_id(models(old(entries)@), *id))
            },
            Command::Reindex => r == Ok::<bool, TaskError>(true) && models(final(entries)@)
                == reindexed(models(old(entries)@)),
            Command::List(_) | Command::Unknown => r == Ok::<bool, TaskError>(false)
                && final(entries)@ == old(entries)@,
        },
{
    match cmd {
        Command::Add(g, d, x) => match parse_due(d.as_str()) {
            Some(due) => {
                add_entry(entries, g.clone(), due, x.clone());
                Ok(true)
            },
            None => Err(TaskError::InvalidDateFormat),
        },
        Command::Mod(id, u) => match update_entry(entries, *id, u) {
            Ok(()) => Ok(true),
            Err(e) => Err(e),
        },
        Command::Del(id) => match delete_entry(entries, *id) {
            Ok(_) => Ok(true),
            Err(e) => Err(e),
        },
        Command::Reindex => {
            reindex(entries);
            Ok(true)
        },
        Command::List(_) | Command::Unknown => Ok(false),
    }
}

} // verus!
