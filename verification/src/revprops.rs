//! Changing revision properties from the admin tool: which revisions can be
//! changed, where a property lives (in the commit, or among the revision's own
//! properties), and what setting or deleting it does.
use vstd::prelude::*;
use crate::text::{decimal, u64_to_string, concat2, concat3, str_eq, to_owned};
use crate::object::Commit;
use crate::strmap::StrMap;
use crate::load::{rfc3339_seconds, parse_rfc3339};

verus! {

/// A revision after the head is refused.
pub fn check_revision(revision: u64, head: u64) -> (r: Result<(), String>)
    ensures
        revision <= head ==> r is Ok,
        revision > head ==> (r matches Err(m) && m@ == "Revision "@ + decimal(revision as nat)
            + " does not exist (HEAD is r"@ + decimal(head as nat) + ")"@),
{
    if revision > head {
        let a = u64_to_string(revision);
        let b = u64_to_string(head);
        let mut m = concat3("Revision ", a.as_str(), " does not exist (HEAD is r");
        m.append(b.as_str());
        m.append(")");
        return Err(m);
    }
    Ok(())
}

/// Where a revision property lives.
#[derive(Debug, Clone, Copy, PartialEq, Eq, Structural)]
pub enum RevpropPlace {
    /// The commit's message.
    Log,
    /// The commit's author.
    Author,
    /// The commit's timestamp.
    Date,
    /// The revision's own properties.
    Custom,
}

/// Where the property `name` lives: `svn:log`, `svn:author` and `svn:date` in the
/// commit, any other among the revision's own properties.
pub open spec fn place_of(name: Seq<char>) -> RevpropPlace {
    if name == "svn:log"@ {
        RevpropPlace::Log
    } else if name == "svn:author"@ {
        RevpropPlace::Author
    } else if name == "svn:date"@ {
        RevpropPlace::Date
    } else {
        RevpropPlace::Custom
    }
}

/// Where the property `name` lives.
pub fn revprop_place(name: &str) -> (p: RevpropPlace)
    ensures
        p == place_of(name@),
{
    if str_eq(name, "svn:log") {
        RevpropPlace::Log
    } else if str_eq(name, "svn:author") {
        RevpropPlace::Author
    } else if str_eq(name, "svn:date") {
        RevpropPlace::Date
    } else {
        RevpropPlace::Custom
    }
}

/// Sets a property that lives in the commit: the message, the author, or the
/// timestamp of an RFC 3339 date; a date that is not one is refused and the commit
/// is left as it was.
pub fn set_commit_revprop(commit: &mut Commit, place: RevpropPlace, value: &str) -> (r: Result<(), String>)
    requires
        place != RevpropPlace::Custom,
    ensures
        place == RevpropPlace::Log ==> r is Ok && final(commit).message@ == value@ && final(commit).author@ == old(
            commit,
        ).author@ && final(commit).timestamp == old(commit).timestamp,
        place == RevpropPlace::Author ==> r is Ok && final(commit).author@ == value@ && final(commit).message@ == old(
            commit,
        ).message@ && final(commit).timestamp == old(commit).timestamp,
        place == RevpropPlace::Date ==> match rfc3339_seconds(value@) {
            Some(t) => r is Ok && final(commit).timestamp == t,
            None => (r matches Err(m) && m@ == "Invalid date format (expected RFC 3339): "@ + value@)
                && final(commit).timestamp == old(commit).timestamp,
        } && final(commit).author@ == old(commit).author@ && final(commit).message@ == old(commit).message@,
        final(commit).tree_id == old(commit).tree_id,
        final(commit).parents@ == old(commit).parents@,
        final(commit).tz_offset == old(commit).tz_offset,
{
    match place {
        RevpropPlace::Log => {
            commit.message = to_owned(value);
            Ok(())
        },
        RevpropPlace::Author => {
            commit.author = to_owned(value);
            Ok(())
        },
        _ => match parse_rfc3339(value) {
            Some(t) => {
                commit.timestamp = t;
                Ok(())
            },
            None => Err(concat2("Invalid date format (expected RFC 3339): ", value)),
        },
    }
}

/// Deletes a property that lives in the commit: the message or the author becomes
/// empty; the date cannot be deleted, and the commit is left as it was.
pub fn delete_commit_revprop(commit: &mut Commit, place: RevpropPlace) -> (r: Result<(), String>)
    requires
        place != RevpropPlace::Custom,
    ensures
        place == RevpropPlace::Log ==> r is Ok && final(commit).message@.len() == 0 && final(commit).author@ == old(
            commit,
        ).author@,
        place == RevpropPlace::Author ==> r is Ok && final(commit).author@.len() == 0 && final(commit).message@
            == old(commit).message@,
        place == RevpropPlace::Date ==> (r matches Err(m) && m@ == "Cannot delete svn:date property"@)
            && final(commit).author@ == old(commit).author@ && final(commit).message@ == old(commit).message@,
        final(commit).timestamp == old(commit).timestamp,
        final(commit).tree_id == old(commit).tree_id,
        final(commit).parents@ == old(commit).parents@,
        final(commit).tz_offset == old(commit).tz_offset,
{
    match place {
        RevpropPlace::Log => {
            commit.message = String::new();
            Ok(())
        },
        RevpropPlace::Author => {
            commit.author = String::new();
            Ok(())
        },
        _ => Err(to_owned("Cannot delete svn:date property")),
    }
}

/// Sets one of a revision's own properties.
pub fn set_custom_revprop(props: &mut StrMap<String>, name: &str, value: &str)
    requires
        old(props).wf(),
    ensures
        final(props).wf(),
        final(props).view().dom() == old(props).view().dom().insert(name@),
        final(props).view()[name@]@ == value@,
        forall|k: Seq<char>| k != name@ && old(props).view().contains_key(k) ==> #[trigger] final(props).view()[k]
            == old(props).view()[k],
{
    let v = to_owned(value);
    let ghost vv = v;
    props.insert(to_owned(name), v);
    assert(props.view() == old(props).view().insert(name@, vv));
}

/// Deletes one of a revision's own properties; one that is not set is refused and
/// the properties are left as they were.
pub fn delete_custom_revprop(props: &mut StrMap<String>, name: &str, revision: u64) -> (r: Result<(), String>)
    requires
        old(props).wf(),
    ensures
        final(props).wf(),
        final(props).view() == old(props).view().remove(name@),
        old(props).view().contains_key(name@) ==> r is Ok,
        !old(props).view().contains_key(name@) ==> (r matches Err(m) && m@ == "Property '"@ + name@
            + "' not found on revision "@ + decimal(revision as nat)),
{
    match props.remove(name) {
        Some(_) => Ok(()),
        None => {
            let n = u64_to_string(revision);
            let mut m = concat3("Property '", name, "' not found on revision ");
            m.append(n.as_str());
            Err(m)
        },
    }
}

} // verus!
