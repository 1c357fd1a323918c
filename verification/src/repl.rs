//! What the session does with a line typed at its prompt.
use vstd::prelude::*;
use crate::query::{validate_query, validation_of, RootType};
use crate::redirect::{
    option_view, plan_redirection, plan_save_command, redirection_plan, save_plan, RedirectMode,
    Redirection,
};
use crate::text::{starts_with, starts_with_chars, string_of_range, trim, trimmed_chars};

verus! {

/// What to do with a line typed at the prompt.
#[derive(Debug)]
pub enum ReplAction {
    /// Nothing (an empty line).
    Skip,
    /// End the session (`:quit`, `:exit`).
    Quit,
    /// Show the help text (`:help`).
    Help,
    /// Show facts about the dataset (`:info`).
    Info,
    /// Clear the terminal (`:clear`).
    Clear,
    /// Print this text (`:last`).
    Print(String),
    /// Report this error.
    Report(String),
    /// Save the results of a query to a file (`:save`).
    Save(Redirection),
    /// Run a validated query with its results going to a file.
    Redirect(Redirection),
    /// Run this validated query in the pager.
    Run(String),
}

/// `ReplAction` over text views.
pub enum ReplPlan {
    Skip,
    Quit,
    Help,
    Info,
    Clear,
    Print(Seq<char>),
    Report(Seq<char>),
    Save(Seq<char>, Seq<char>),
    Redirect(Seq<char>, Seq<char>, RedirectMode),
    Run(Seq<char>),
}

pub open spec fn no_previous_message() -> Seq<char> {
    "No previous query."@
}

/// What the session does with the line `line` when the dataset's root is
/// of type `root` and the last successful query is `last`.
pub open spec fn repl_plan(root: RootType, last: Option<Seq<char>>, line: Seq<char>) -> ReplPlan {
    let q = trim(line);
    if q.len() == 0 {
        ReplPlan::Skip
    } else if q == ":quit"@ || q == ":exit"@ {
        ReplPlan::Quit
    } else if q == ":help"@ {
        ReplPlan::Help
    } else if q == ":info"@ {
        ReplPlan::Info
    } else if q == ":last"@ {
        ReplPlan::Print(
            match last {
                Some(l) => l,
                None => no_previous_message(),
            },
        )
    } else if q == ":clear"@ {
        ReplPlan::Clear
    } else if q == ":save"@ || starts_with(q, ":save "@) {
        match save_plan(last, q) {
            Err(m) => ReplPlan::Report(m),
            Ok(Some(x)) => ReplPlan::Save(x.0, x.1),
            Ok(None) => ReplPlan::Skip,
        }
    } else {
        match redirection_plan(root, q) {
            Err(m) => ReplPlan::Report(m),
            Ok(Some(x)) => ReplPlan::Redirect(x.0, x.1, x.2),
            Ok(None) => match validation_of(root, q) {
                Err(m) => ReplPlan::Report(m),
                Ok(()) => ReplPlan::Run(q),
            },
        }
    }
}

/// `a` is the action that `p` describes.
pub open spec fn action_matches(a: ReplAction, p: ReplPlan) -> bool {
    match (a, p) {
        (ReplAction::Skip, ReplPlan::Skip) => true,
        (ReplAction::Quit, ReplPlan::Quit) => true,
        (ReplAction::Help, ReplPlan::Help) => true,
        (ReplAction::Info, ReplPlan::Info) => true,
        (ReplAction::Clear, ReplPlan::Clear) => true,
        (ReplAction::Print(s), ReplPlan::Print(t)) => s@ == t,
        (ReplAction::Report(s), ReplPlan::Report(t)) => s@ == t,
        (ReplAction::Save(r), ReplPlan::Save(q, f)) => r.query@ == q && r.filename@ == f && r.mode
            == RedirectMode::Truncate,
        (ReplAction::Redirect(r), ReplPlan::Redirect(q, f, m)) => r.query@ == q && r.filename@
            == f && r.mode == m,
        (ReplAction::Run(s), ReplPlan::Run(t)) => s@ == t,
        _ => false,
    }
}

fn is_word(cs: &Vec<char>, word: &str) -> (b: bool)
    ensures
        b == (cs@ == word@),
{
    let w = crate::text::chars_of(word);
    if cs.len() != w.len() {
        return false;
    }
    let r = starts_with_chars(cs, word);
    proof {
        if r {
            assert(cs@ =~= cs@.subrange(0, w@.len() as int));
        }
        if cs@ == word@ {
            assert(cs@.subrange(0, w@.len() as int) =~= cs@);
        }
    }
    r
}

/// Decides what the session does with the line `line`: commands begin
/// with `:`; a line with a top-level `>` saves the results of its jq part
/// to a file; any other line is a jq query for the pager.  Queries are
/// validated first.
pub fn plan_repl_line(root_type: RootType, last_query: &Option<String>, line: &str) -> (a:
    ReplAction)
    ensures
        action_matches(a, repl_plan(root_type, option_view(*last_query), line@)),
{
    let q = trimmed_chars(line);
    let query = string_of_range(&q, 0, q.len());
    assert(q@.subrange(0, q@.len() as int) =~= q@);
    if q.len() == 0 {
        return ReplAction::Skip;
    }
    if is_word(&q, ":quit") || is_word(&q, ":exit") {
        return ReplAction::Quit;
    }
    if is_word(&q, ":help") {
        return ReplAction::Help;
    }
    if is_word(&q, ":info") {
        return ReplAction::Info;
    }
    if is_word(&q, ":last") {
        return match last_query {
            Some(l) => ReplAction::Print(l.clone()),
            None => ReplAction::Print("No previous query.".to_string()),
        };
    }
    if is_word(&q, ":clear") {
        return ReplAction::Clear;
    }
    if is_word(&q, ":save") || starts_with_chars(&q, ":save ") {
        return match plan_save_command(last_query, query.as_str()) {
            Err(m) => ReplAction::Report(m),
            Ok(Some(r)) => ReplAction::Save(r),
            Ok(None) => ReplAction::Skip,
        };
    }
    match plan_redirection(root_type, query.as_str()) {
        Err(m) => ReplAction::Report(m),
        Ok(Some(r)) => ReplAction::Redirect(r),
        Ok(None) => match validate_query(root_type, query.as_str()) {
            Err(m) => ReplAction::Report(m),
            Ok(()) => ReplAction::Run(query),
        },
    }
}

/// The last successful query once the action planned as `p` has run,
/// `ran_ok` telling whether it succeeded: a query run in the pager or
/// saved through a redirection becomes the last query when it succeeded;
/// nothing else changes it (`:save` runs the last query again).
pub open spec fn last_query_after(last: Option<Seq<char>>, p: ReplPlan, ran_ok: bool) -> Option<
    Seq<char>,
> {
    match p {
        ReplPlan::Redirect(q, _, _) => if ran_ok {
            Some(q)
        } else {
            last
        },
        ReplPlan::Run(q) => if ran_ok {
            Some(q)
        } else {
            last
        },
        _ => last,
    }
}

/// Updates the last successful query once `action` has run; `ran_ok`
/// tells whether it succeeded.
pub fn remember_query(last_query: &mut Option<String>, action: &ReplAction, ran_ok: bool)
    ensures
        forall|p: ReplPlan| #[trigger]
            action_matches(*action, p) ==> option_view(*final(last_query)) == last_query_after(
                option_view(*old(last_query)),
                p,
                ran_ok,
            ),
{
    if ran_ok {
        match action {
            ReplAction::Redirect(r) => {
                *last_query = Some(r.query.clone());
            },
            ReplAction::Run(q) => {
                *last_query = Some(q.clone());
            },
            _ => {},
        }
    }
}

/// A refused line (a malformed redirection or `:save`, or a query that
/// fails validation) never becomes the last query, and an action that
/// failed leaves the last query as it was.
pub proof fn lemma_refused_line_keeps_last_query(
    root: RootType,
    last: Option<Seq<char>>,
    line: Seq<char>,
    ran_ok: bool,
)
    ensures
        repl_plan(root, last, line) is Report ==> last_query_after(
            last,
            repl_plan(root, last, line),
            ran_ok,
        ) == last,
        last_query_after(last, repl_plan(root, last, line), false) == last,
{
}

/// Only a query that passed validation becomes the last query: whatever
/// replaces it is the validated query of the line.
pub proof fn lemma_last_query_is_validated(
    root: RootType,
    last: Option<Seq<char>>,
    line: Seq<char>,
    ran_ok: bool,
)
    requires
        last_query_after(last, repl_plan(root, last, line), ran_ok) != last,
    ensures
        last_query_after(last, repl_plan(root, last, line), ran_ok) matches Some(q)
            && validation_of(root, q) is Ok,
{
}

/// The session's commands, typed with any surrounding blanks: an empty
/// line does nothing, `:quit` and `:exit` end the session, `:help`,
/// `:info` and `:clear` do what they name, and `:last` prints the last
/// successful query, or says there is none.
pub proof fn lemma_session_commands(root: RootType, last: Option<Seq<char>>, line: Seq<char>)
    ensures
        trim(line).len() == 0 ==> repl_plan(root, last, line) is Skip,
        trim(line) == ":quit"@ || trim(line) == ":exit"@ ==> repl_plan(root, last, line) is Quit,
        trim(line) == ":help"@ ==> repl_plan(root, last, line) is Help,
        trim(line) == ":info"@ ==> repl_plan(root, last, line) is Info,
        trim(line) == ":clear"@ ==> repl_plan(root, last, line) is Clear,
        trim(line) == ":last"@ ==> repl_plan(root, last, line) == ReplPlan::Print(
            match last {
                Some(l) => l,
                None => "No previous query."@,
            },
        ),
{
    reveal_strlit(":quit");
    reveal_strlit(":exit");
    reveal_strlit(":help");
    reveal_strlit(":info");
    reveal_strlit(":clear");
    reveal_strlit(":last");
    reveal_strlit("No previous query.");
    if trim(line) == ":last"@ {
        let q = trim(line);
        assert(q.len() != 0);
        assert(q[1] == 'l');
        assert(":quit"@[1] == 'q' && ":exit"@[1] == 'e' && ":help"@[1] == 'h' && ":info"@[1]
            == 'i');
        assert(q != ":quit"@ && q != ":exit"@ && q != ":help"@ && q != ":info"@);
        match last {
            Some(l) => {
                assert(repl_plan(root, last, line) == ReplPlan::Print(l));
            },
            None => {
                assert(no_previous_message() =~= "No previous query."@);
                assert(repl_plan(root, last, line) == ReplPlan::Print("No previous query."@));
            },
        }
    }
}

} // verus!
