//! The decisions taken on i3 events, the commands sent to i3, and the
//! reading of i3's replies to them.

use vstd::prelude::*;
use vstd::string::*;

use crate::model::{
    ApplyError, CommandReply, Config, ConfigRename, ConfigWindow, ConfigWorkspace, I3WSNamesError,
    RequestError, Tree, WorkspaceChange,
};

verus! {

/// Handles a window event. Windows are not acted on yet: the trees come
/// back as they were.
pub fn do_window(tree: Vec<Tree>) -> (res: Result<Vec<Tree>, ApplyError>)
    ensures
        res == Ok::<Vec<Tree>, ApplyError>(tree),
{
    Ok(tree)
}

/// The character of decimal digit `d`.
pub open spec fn digit_char(d: nat) -> char {
    (48 + d) as char
}

/// The decimal numeral of `n`, without leading zeros.
pub open spec fn decimal(n: nat) -> Seq<char>
    decreases n,
{
    if n < 10 {
        seq![digit_char(n)]
    } else {
        decimal(n / 10).push(digit_char(n % 10))
    }
}

/// A name is the numeral of at most one number: different numbers are
/// written differently.
pub proof fn law_decimal_injective(a: nat, b: nat)
    requires
        decimal(a) == decimal(b),
    ensures
        a == b,
    decreases a,
{
    lemma_decimal_len(a);
    lemma_decimal_len(b);
    let da = decimal(a);
    let db = decimal(b);
    assert(da.last() == digit_char(a % 10));
    assert(db.last() == digit_char(b % 10));
    assert((digit_char(a % 10) as int) == 48 + a % 10);
    assert((digit_char(b % 10) as int) == 48 + b % 10);
    if a >= 10 && b >= 10 {
        assert(decimal(a / 10) =~= da.drop_last());
        assert(decimal(b / 10) =~= db.drop_last());
        law_decimal_injective(a / 10, b / 10);
    }
}

proof fn lemma_decimal_len(n: nat)
    ensures
        decimal(n).len() >= 1,
        n < 10 <==> decimal(n).len() == 1,
        decimal(n).last() == digit_char(n % 10),
    decreases n,
{
    if n >= 10 {
        lemma_decimal_len(n / 10);
    }
}

fn digit(d: u8) -> (c: char)
    requires
        d < 10,
    ensures
        c == digit_char(d as nat),
{
    (d + 48) as char
}

/// Whether `name` is the decimal numeral of `number`, as
/// `number.to_string()` writes it.
pub fn names_number(name: &str, number: u8) -> (res: bool)
    ensures
        res == (name@ == decimal(number as nat)),
{
    let mut digits: Vec<char> = Vec::new();
    if number >= 100 {
        digits.push(digit(number / 100));
    }
    if number >= 10 {
        digits.push(digit((number / 10) % 10));
    }
    digits.push(digit(number % 10));
    proof {
        let n = number as nat;
        if n >= 100 {
            assert(decimal(n / 100) == seq![digit_char(n / 100)]);
            assert(decimal(n / 10) =~= seq![digit_char(n / 100), digit_char((n / 10) % 10)]);
        } else if n >= 10 {
            assert(decimal(n / 10) == seq![digit_char(n / 10)]);
        }
        assert(digits@ =~= decimal(n));
    }
    let len = name.unicode_len();
    if len != digits.len() {
        return false;
    }
    let mut i: usize = 0;
    while i < len
        invariant
            i <= len,
            len == name@.len(),
            digits@.len() == len,
            digits@ == decimal(number as nat),
            forall|j: int| 0 <= j < i ==> name@[j] == digits@[j],
        decreases len - i,
    {
        if name.get_char(i) != digits[i] {
            return false;
        }
        i = i + 1;
    }
    assert(name@ =~= digits@);
    true
}

/// The first workspace rule whose number is written `name`, if any.
pub open spec fn first_rule_named(rules: Seq<ConfigWorkspace>, name: Seq<char>) -> Option<int>
    decreases rules.len(),
{
    if rules.len() == 0 {
        None
    } else {
        match first_rule_named(rules.drop_last(), name) {
            Some(i) => Some(i),
            None => if decimal(rules.last().number as nat) == name {
                Some(rules.len() - 1)
            } else {
                None
            },
        }
    }
}

/// The name to give the workspace of a workspace event: when a workspace
/// has just been emptied (the change i3 reports for a fresh workspace that
/// is left empty), the name of the first rule for the number that the
/// workspace is named by.
pub open spec fn workspace_target(change: WorkspaceChange, current_name: Option<String>, rules: Seq<ConfigWorkspace>) -> Option<Seq<char>> {
    if change == WorkspaceChange::Empty {
        match first_rule_named(rules, current_name->0@) {
            Some(i) => Some(rules[i].name@),
            None => None,
        }
    } else {
        None
    }
}

/// Decides what a workspace event calls for: the command that renames the
/// workspace to its configured name (after which the trees are read
/// again), or `None` to keep the trees as they are. `current_name` is the
/// name of the workspace that the event is about.
pub fn do_workspace(change: WorkspaceChange, current_name: Option<String>, config: &Config) -> (command: Option<String>)
    requires
        change == WorkspaceChange::Empty ==> current_name is Some,
    ensures
        command is Some <==> workspace_target(change, current_name, config.rename.workspaces@) is Some,
        command is Some ==> command->0@ == "rename workspace to \""@ + workspace_target(change, current_name, config.rename.workspaces@)->0 + "\""@,
        change != WorkspaceChange::Empty ==> command is None,
{
    let ghost rules = config.rename.workspaces@;
    let ghost given = current_name;
    if change == WorkspaceChange::Empty {
        let current = match current_name {
            Some(name) => name,
            None => {
                return None;
            },
        };
        let n = config.rename.workspaces.len();
        let mut i: usize = 0;
        while i < n
            invariant
                i <= n,
                n == rules.len(),
                rules == config.rename.workspaces@,
                change == WorkspaceChange::Empty,
                given == current_name,
                given == Some(current),
                first_rule_named(rules.take(i as int), current@) is None,
            decreases n - i,
        {
            let workspace = &config.rename.workspaces[i];
            proof {
                assert(rules.take(i + 1).drop_last() =~= rules.take(i as int));
            }
            if names_number(current.as_str(), workspace.number) {
                proof {
                    lemma_first_rule_extends(rules, i as int + 1, current@);
                }
                return Some(rename_workspace_command(workspace.name.as_str()));
            }
            i = i + 1;
        }
        proof {
            assert(rules.take(n as int) =~= rules);
        }
        None
    } else {
        None
    }
}

/// Only a workspace that has just been emptied is renamed: for every other
/// change there is no target, whatever the name and the rules.
pub proof fn law_only_emptied_workspaces_renamed(change: WorkspaceChange, current_name: Option<String>, rules: Seq<ConfigWorkspace>)
    requires
        change != WorkspaceChange::Empty,
    ensures
        workspace_target(change, current_name, rules) is None,
{
}

/// On an emptied workspace, the target is the name of a rule whose number
/// is written as the workspace's name, no earlier rule has that number's
/// numeral, and there is no target exactly when no rule has it.
pub proof fn law_target_is_first_matching_rule(current_name: String, rules: Seq<ConfigWorkspace>)
    ensures
        workspace_target(WorkspaceChange::Empty, Some(current_name), rules) is None
            <==> forall|j: int| 0 <= j < rules.len() ==> decimal((#[trigger] rules[j]).number as nat) != current_name@,
        workspace_target(WorkspaceChange::Empty, Some(current_name), rules) is Some ==> exists|i: int| {
            &&& 0 <= i < rules.len()
            &&& decimal((#[trigger] rules[i]).number as nat) == current_name@
            &&& rules[i].name@ == workspace_target(WorkspaceChange::Empty, Some(current_name), rules)->0
            &&& forall|j: int| 0 <= j < i ==> decimal((#[trigger] rules[j]).number as nat) != current_name@
        },
{
    lemma_first_rule_named(rules, current_name@);
}

proof fn lemma_first_rule_named(rules: Seq<ConfigWorkspace>, name: Seq<char>)
    ensures
        first_rule_named(rules, name) is None <==> forall|j: int| 0 <= j < rules.len() ==> decimal((#[trigger] rules[j]).number as nat) != name,
        first_rule_named(rules, name) matches Some(i) ==> {
            &&& 0 <= i < rules.len()
            &&& decimal(rules[i].number as nat) == name
            &&& forall|j: int| 0 <= j < i ==> decimal((#[trigger] rules[j]).number as nat) != name
        },
    decreases rules.len(),
{
    if rules.len() > 0 {
        let rest = rules.drop_last();
        lemma_first_rule_named(rest, name);
        assert forall|j: int| 0 <= j < rest.len() implies rest[j] == rules[j] by {}
        if first_rule_named(rules, name) is None {
            assert forall|j: int| 0 <= j < rules.len() implies decimal((#[trigger] rules[j]).number as nat) != name by {
                if j < rest.len() {
                    assert(rest[j] == rules[j]);
                }
            }
        } else {
            if first_rule_named(rest, name) is None {
                assert forall|j: int| 0 <= j < rules.len() - 1 implies decimal((#[trigger] rules[j]).number as nat) != name by {
                    assert(rest[j] == rules[j]);
                }
            }
        }
        if forall|j: int| 0 <= j < rules.len() ==> decimal((#[trigger] rules[j]).number as nat) != name {
            assert forall|j: int| 0 <= j < rest.len() implies decimal((#[trigger] rest[j]).number as nat) != name by {
                assert(rest[j] == rules[j]);
            }
            assert(decimal(rules[rules.len() - 1].number as nat) != name);
        }
    }
}

/// A first match among the first `k` rules is the first match among all.
proof fn lemma_first_rule_extends(rules: Seq<ConfigWorkspace>, k: int, name: Seq<char>)
    requires
        0 <= k <= rules.len(),
        first_rule_named(rules.take(k), name) is Some,
    ensures
        first_rule_named(rules, name) == first_rule_named(rules.take(k), name),
    decreases rules.len() - k,
{
    if k < rules.len() {
        assert(rules.take(k + 1).drop_last() =~= rules.take(k));
        lemma_first_rule_extends(rules, k + 1, name);
    } else {
        assert(rules.take(k) =~= rules);
    }
}

/// The command that switches to workspace `target_name`.
pub fn go_to_workspace_command(target_name: &str) -> (command: String)
    ensures
        command@ == "workspace \""@ + target_name@ + "\""@,
{
    let mut command = String::from_str("workspace \"");
    command.append(target_name);
    command.append("\"");
    command
}

/// The command that renames the focused workspace to `target_name`.
pub fn rename_workspace_command(target_name: &str) -> (command: String)
    ensures
        command@ == "rename workspace to \""@ + target_name@ + "\""@,
{
    let mut command = String::from_str("rename workspace to \"");
    command.append(target_name);
    command.append("\"");
    command
}

/// The command that sets the layout of the focused container to
/// `target_layout`.
pub fn set_current_layout_command(target_layout: &str) -> (command: String)
    ensures
        command@ == "layout \""@ + target_layout@ + "\""@,
{
    let mut command = String::from_str("layout \"");
    command.append(target_layout);
    command.append("\"");
    command
}

/// i3's reply to a command can be read: it holds an outcome, and if that
/// failed, an error message.
pub open spec fn reply_readable(command: Result<CommandReply, i3ipc::MessageError>) -> bool {
    match command {
        Ok(reply) => {
            &&& reply.outcomes@.len() > 0
            &&& !reply.outcomes@[0].success ==> reply.outcomes@[0].error is Some
        },
        Err(_) => true,
    }
}

/// Reads i3's reply to a command: `Ok` when the first command succeeded; its
/// error message when it failed; the message error when the exchange with
/// i3 failed.
pub fn handle_command_reply(command: Result<CommandReply, i3ipc::MessageError>) -> (res: Result<(), I3WSNamesError>)
    requires
        reply_readable(command),
    ensures
        match command {
            Ok(reply) => if reply.outcomes@[0].success {
                res is Ok
            } else {
                res matches Err(I3WSNamesError::Request(RequestError::I3Command(message)))
                    && message@ == reply.outcomes@[0].error->0@
            },
            Err(error) => res matches Err(I3WSNamesError::Request(RequestError::I3Message(e))) && e == error,
        },
{
    match command {
        Ok(result) => {
            if result.outcomes[0].success {
                return Ok(());
            }
            let message = match &result.outcomes[0].error {
                Some(message) => message.clone(),
                None => String::new(),
            };
            Err(I3WSNamesError::Request(RequestError::I3Command(message)))
        },
        Err(error) => Err(I3WSNamesError::Request(RequestError::I3Message(error))),
    }
}

/// The configuration used when no configuration file is given: no rules,
/// and windows do not cross output boundaries.
pub fn default_config() -> (config: Config)
    ensures
        config.rename.workspaces@.len() == 0,
        config.rename.windows@.len() == 0,
        !config.cross_boundary,
{
    Config {
        rename: ConfigRename {
            workspaces: Vec::<ConfigWorkspace>::new(),
            windows: Vec::<ConfigWindow>::new(),
        },
        cross_boundary: false,
    }
}

} // verus!
