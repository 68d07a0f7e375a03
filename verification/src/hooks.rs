//! Repository hooks: where the scripts live, what they read on stdin, and how their
//! exit is judged. Running the scripts is left to the caller.
use vstd::prelude::*;
use crate::text::{concat2, concat3, str_eq, decimal, decimal_signed, join_path, path_join, trim, to_owned};

verus! {

/// Where the hook scripts of a repository are: `<repo>/hooks/`.
pub struct HookManager {
    /// The hooks directory.
    pub hooks_dir: String,
}

/// A `KEY: value` line.
pub open spec fn field_line(key: Seq<char>, value: Seq<char>) -> Seq<char> {
    key + ": "@ + value + "\n"@
}

/// The `action path` lines of the changed files.
pub open spec fn file_lines(files: Seq<(String, String)>) -> Seq<char>
    decreases files.len(),
{
    if files.len() == 0 {
        Seq::empty()
    } else {
        file_lines(files.drop_last()) + files.last().0@ + " "@ + files.last().1@ + "\n"@
    }
}

/// Appends `KEY: value\n` to `s`.
fn push_field(s: &mut String, key: &str, value: &str)
    ensures
        final(s)@ == old(s)@ + field_line(key@, value@),
{
    s.append(key);
    s.append(": ");
    s.append(value);
    s.append("\n");
}

impl HookManager {
    /// The hook manager of the repository at `repo_path`.
    pub fn new(repo_path: String) -> (h: Self)
        ensures
            h.hooks_dir@ == path_join(repo_path@, "hooks"@),
    {
        HookManager { hooks_dir: join_path(repo_path.as_str(), "hooks") }
    }

    /// Path of the hook script `name`.
    pub fn hook_path(&self, name: &str) -> (p: String)
        ensures
            p@ == path_join(self.hooks_dir@, name@),
    {
        join_path(self.hooks_dir.as_str(), name)
    }

    /// The stdin of the pre-commit hook: revision, author, date, log, then one
    /// `action path` line per changed file.
    pub fn pre_commit_input(rev: u64, author: &str, log: &str, date: &str, files: &Vec<(String, String)>) -> (s: String)
        ensures
            s@ == field_line("REVISION"@, decimal(rev as nat)) + field_line("AUTHOR"@, author@) + field_line("DATE"@, date@)
                + field_line("LOG"@, log@) + "FILES:\n"@ + file_lines(files@),
    {
        let mut s = String::new();
        let r = crate::text::u64_to_string(rev);
        push_field(&mut s, "REVISION", r.as_str());
        push_field(&mut s, "AUTHOR", author);
        push_field(&mut s, "DATE", date);
        push_field(&mut s, "LOG", log);
        s.append("FILES:\n");
        let ghost head = s@;
        let mut i: usize = 0;
        assert(files@.take(0) =~= Seq::<(String, String)>::empty());
        while i < files.len()
            invariant
                i <= files@.len(),
                s@ == head + file_lines(files@.take(i as int)),
            decreases files.len() - i,
        {
            s.append(files[i].0.as_str());
            s.append(" ");
            s.append(files[i].1.as_str());
            s.append("\n");
            assert(files@.take(i + 1).drop_last() =~= files@.take(i as int));
            i = i + 1;
        }
        assert(files@.take(files@.len() as int) =~= files@);
        s
    }

    /// The stdin of the post-commit hook.
    pub fn post_commit_input(rev: u64, author: &str, log: &str, date: &str) -> (s: String)
        ensures
            s@ == field_line("REVISION"@, decimal(rev as nat)) + field_line("AUTHOR"@, author@) + field_line("DATE"@, date@)
                + field_line("LOG"@, log@),
    {
        let mut s = String::new();
        let r = crate::text::u64_to_string(rev);
        push_field(&mut s, "REVISION", r.as_str());
        push_field(&mut s, "AUTHOR", author);
        push_field(&mut s, "DATE", date);
        push_field(&mut s, "LOG", log);
        s
    }

    /// The stdin of the pre-revprop-change hook.
    pub fn pre_revprop_change_input(rev: u64, author: &str, prop_name: &str, action: &str, prop_value: &str) -> (s: String)
        ensures
            s@ == field_line("REVISION"@, decimal(rev as nat)) + field_line("AUTHOR"@, author@) + field_line("PROPNAME"@, prop_name@)
                + field_line("ACTION"@, action@) + field_line("VALUE"@, prop_value@),
    {
        let mut s = String::new();
        let r = crate::text::u64_to_string(rev);
        push_field(&mut s, "REVISION", r.as_str());
        push_field(&mut s, "AUTHOR", author);
        push_field(&mut s, "PROPNAME", prop_name);
        push_field(&mut s, "ACTION", action);
        push_field(&mut s, "VALUE", prop_value);
        s
    }

    /// The stdin of the post-revprop-change hook.
    pub fn post_revprop_change_input(rev: u64, author: &str, prop_name: &str, action: &str) -> (s: String)
        ensures
            s@ == field_line("REVISION"@, decimal(rev as nat)) + field_line("AUTHOR"@, author@) + field_line("PROPNAME"@, prop_name@)
                + field_line("ACTION"@, action@),
    {
        let mut s = String::new();
        let r = crate::text::u64_to_string(rev);
        push_field(&mut s, "REVISION", r.as_str());
        push_field(&mut s, "AUTHOR", author);
        push_field(&mut s, "PROPNAME", prop_name);
        push_field(&mut s, "ACTION", action);
        s
    }
}

/// The message of a hook that exited with failure: its stderr, else its stdout, else
/// the exit code (`-1` when there is none).
pub open spec fn failure_text(name: Seq<char>, code: Option<i32>, stdout: Seq<char>, stderr: Seq<char>) -> Seq<char> {
    if stderr.len() > 0 {
        stderr
    } else if stdout.len() > 0 {
        stdout
    } else {
        "Hook '"@ + name + "' exited with code "@ + decimal_signed(match code {
            Some(c) => c as int,
            None => -1,
        })
    }
}

/// Judges a finished hook: success passes; failure rejects with the hook's output.
pub fn hook_outcome(name: &str, success: bool, code: Option<i32>, stdout: &str, stderr: &str) -> (r: Result<(), String>)
    ensures
        success ==> r is Ok,
        !success ==> (r matches Err(m) && m@ == "Hook '"@ + name@ + "' rejected the operation: "@ + trim(
            failure_text(name@, code, stdout@, stderr@),
        )),
{
    if success {
        return Ok(());
    }
    let msg = if !stderr.is_empty() {
        to_owned(stderr)
    } else if !stdout.is_empty() {
        to_owned(stdout)
    } else {
        let c: i64 = match code {
            Some(c) => c as i64,
            None => -1,
        };
        let cs = crate::text::i64_to_string(c);
        let m = concat3("Hook '", name, concat2("' exited with code ", cs.as_str()).as_str());
        assert(m@ =~= failure_text(name@, code, stdout@, stderr@));
        m
    };
    assert(msg@ == failure_text(name@, code, stdout@, stderr@));
    let mv = crate::text::chars_of(msg.as_str());
    let t = crate::text::trimmed_string(&mv, 0, mv.len());
    assert(mv@.subrange(0, mv@.len() as int) =~= mv@);
    let a = concat3("Hook '", name, "' rejected the operation: ");
    Err(concat2(a.as_str(), t.as_str()))
}


/// Whether a hook only notifies (runs after the operation is done), so that its
/// failure does not fail the operation.
pub open spec fn is_notification(name: Seq<char>) -> bool {
    name == "post-commit"@ || name == "post-revprop-change"@
}

/// How an operation goes on after a hook, from what running it gave (`None` where
/// there is no such hook script): a missing hook allows the operation; a
/// notification hook's failure is only reported, as the second part; any other
/// hook's verdict stands.
pub fn settle_hook(name: &str, ran: Option<Result<(), String>>) -> (r: (Result<(), String>, Option<String>))
    ensures
        ran is None ==> r == (Ok::<(), String>(()), None::<String>),
        ran matches Some(Ok(_)) ==> r == (Ok::<(), String>(()), None::<String>),
        ran matches Some(Err(e)) ==> (if is_notification(name@) {
            r.0 is Ok && (r.1 matches Some(w) && w@ == name@ + " hook error (ignored): "@ + e@)
        } else {
            r.0 == Err::<(), String>(e) && r.1 is None
        }),
        ran matches Some(Err(e)) ==> (name@ != "post-commit"@ && name@ != "post-revprop-change"@ ==> r == (
        Err::<(), String>(e), None::<String>)),
{
    match ran {
        None => (Ok(()), None),
        Some(Ok(())) => (Ok(()), None),
        Some(Err(e)) => {
            if str_eq(name, "post-commit") || str_eq(name, "post-revprop-change") {
                let w = concat2(name, " hook error (ignored): ");
                let w2 = concat2(w.as_str(), e.as_str());
                (Ok(()), Some(w2))
            } else {
                (Err(e), None)
            }
        },
    }
}

/// Only the two post hooks notify: every other hook, `pre-commit` and
/// `pre-revprop-change` among them, decides, so that its failure refuses the
/// operation.
pub proof fn law_only_post_hooks_notify(name: Seq<char>)
    ensures
        name != "post-commit"@ && name != "post-revprop-change"@ ==> !is_notification(name),
        is_notification("post-commit"@),
        is_notification("post-revprop-change"@),
        !is_notification("pre-commit"@),
        !is_notification("pre-revprop-change"@),
{
    reveal_strlit("post-commit");
    reveal_strlit("post-revprop-change");
    reveal_strlit("pre-commit");
    reveal_strlit("pre-revprop-change");
    assert("pre-commit"@ != "post-commit"@ && "pre-commit"@ != "post-revprop-change"@) by {
        assert("pre-commit"@[1] != "post-commit"@[1]);
        assert("pre-commit"@.len() != "post-revprop-change"@.len());
    }
    assert("pre-revprop-change"@ != "post-commit"@ && "pre-revprop-change"@ != "post-revprop-change"@) by {
        assert("pre-revprop-change"@.len() != "post-commit"@.len());
        assert("pre-revprop-change"@[1] != "post-revprop-change"@[1]);
    }
}
} // verus!
