//! The command dispatcher's verified half: turning the argument vector into
//! a command, and rendering the note listing.

use vstd::prelude::*;
use vstd::string::StringExecFns;
use crate::store::NoteStore;
use crate::text::str_eq;

verus! {

/// What an invocation asks for. The `Usage*` variants stand for calls with
/// a known verb but missing arguments; they print a usage line and change
/// nothing.
pub enum Command {
    ShowList,
    AddNote(String),
    DeleteNote(String),
    EditNote(String),
    SwapNotes(String, String),
    ClearNotes,
    SwitchSpace(String),
    SpacesList,
    SpaceAdd(String),
    SpaceRemove(String),
    SpaceUse(String),
    NoCommand,
    UnknownCommand(String),
    UsageAdd,
    UsageDelete,
    UsageEdit,
    UsageSwap,
    UsageCd,
    UsageSpaces,
}

/// The verbs the dispatcher knows.
pub open spec fn known_verb(c: Seq<char>) -> bool {
    ||| c == "list"@
    ||| c == "ls"@
    ||| c == "add"@
    ||| c == "delete"@
    ||| c == "del"@
    ||| c == "rm"@
    ||| c == "edit"@
    ||| c == "ed"@
    ||| c == "swap"@
    ||| c == "clear"@
    ||| c == "cl"@
    ||| c == "cd"@
    ||| c == "spaces"@
}

impl Command {
    /// Parses the process arguments (program name first) into a command.
    #[verifier::rlimit(100)]
    pub fn parse(args: &Vec<String>) -> (cmd: Command)
        ensures
            ({
                let a = args.deep_view();
                &&& a.len() < 2 ==> cmd is NoCommand
                &&& a.len() >= 2 && (a[1] == "list"@ || a[1] == "ls"@) ==> cmd is ShowList
                &&& a.len() >= 2 && a[1] == "add"@ ==> if a.len() >= 3 {
                    cmd matches Command::AddNote(t) && t@ == a[2]
                } else {
                    cmd is UsageAdd
                }
                &&& a.len() >= 2 && (a[1] == "delete"@ || a[1] == "del"@ || a[1] == "rm"@)
                    ==> if a.len() >= 3 {
                    cmd matches Command::DeleteNote(k) && k@ == a[2]
                } else {
                    cmd is UsageDelete
                }
                &&& a.len() >= 2 && (a[1] == "edit"@ || a[1] == "ed"@) ==> if a.len() >= 3 {
                    cmd matches Command::EditNote(k) && k@ == a[2]
                } else {
                    cmd is UsageEdit
                }
                &&& a.len() >= 2 && a[1] == "swap"@ ==> if a.len() >= 4 {
                    cmd matches Command::SwapNotes(x, y) && x@ == a[2] && y@ == a[3]
                } else {
                    cmd is UsageSwap
                }
                &&& a.len() >= 2 && (a[1] == "clear"@ || a[1] == "cl"@) ==> cmd is ClearNotes
                &&& a.len() >= 2 && a[1] == "cd"@ ==> if a.len() >= 3 {
                    cmd matches Command::SwitchSpace(n) && n@ == a[2]
                } else {
                    cmd is UsageCd
                }
                &&& a.len() >= 2 && a[1] == "spaces"@ ==> if a.len() < 3 {
                    cmd is UsageSpaces
                } else if a[2] == "list"@ {
                    cmd is SpacesList
                } else if a[2] == "add"@ {
                    if a.len() >= 4 {
                        cmd matches Command::SpaceAdd(n) && n@ == a[3]
                    } else {
                        cmd is UsageSpaces
                    }
                } else if a[2] == "rm"@ {
                    if a.len() >= 4 {
                        cmd matches Command::SpaceRemove(n) && n@ == a[3]
                    } else {
                        cmd is UsageSpaces
                    }
                } else if a[2] == "use"@ {
                    if a.len() >= 4 {
                        cmd matches Command::SpaceUse(n) && n@ == a[3]
                    } else {
                        cmd is UsageSpaces
                    }
                } else {
                    cmd is UsageSpaces
                }
                &&& a.len() >= 2 && !known_verb(a[1]) ==> (cmd matches Command::UnknownCommand(c)
                    && c@ == a[1])
            }),
    {
        proof {
            reveal_strlit("list");
            reveal_strlit("ls");
            reveal_strlit("add");
            reveal_strlit("delete");
            reveal_strlit("del");
            reveal_strlit("rm");
            reveal_strlit("edit");
            reveal_strlit("ed");
            reveal_strlit("swap");
            reveal_strlit("clear");
            reveal_strlit("cl");
            reveal_strlit("cd");
            reveal_strlit("spaces");
            reveal_strlit("use");
            assert("list"@ =~= seq!['l', 'i', 's', 't']);
            assert("ls"@ =~= seq!['l', 's']);
            assert("add"@ =~= seq!['a', 'd', 'd']);
            assert("delete"@ =~= seq!['d', 'e', 'l', 'e', 't', 'e']);
            assert("del"@ =~= seq!['d', 'e', 'l']);
            assert("rm"@ =~= seq!['r', 'm']);
            assert("edit"@ =~= seq!['e', 'd', 'i', 't']);
            assert("ed"@ =~= seq!['e', 'd']);
            assert("swap"@ =~= seq!['s', 'w', 'a', 'p']);
            assert("clear"@ =~= seq!['c', 'l', 'e', 'a', 'r']);
            assert("cl"@ =~= seq!['c', 'l']);
            assert("cd"@ =~= seq!['c', 'd']);
            assert("spaces"@ =~= seq!['s', 'p', 'a', 'c', 'e', 's']);
            assert("use"@ =~= seq!['u', 's', 'e']);
        }
        if args.len() < 2 {
            return Command::NoCommand;
        }
        let verb = args[1].as_str();
        if str_eq(verb, "list") || str_eq(verb, "ls") {
            Command::ShowList
        } else if str_eq(verb, "add") {
            if args.len() >= 3 {
                Command::AddNote(args[2].clone())
            } else {
                Command::UsageAdd
            }
        } else if str_eq(verb, "delete") || str_eq(verb, "del") || str_eq(verb, "rm") {
            if args.len() >= 3 {
                Command::DeleteNote(args[2].clone())
            } else {
                Command::UsageDelete
            }
        } else if str_eq(verb, "edit") || str_eq(verb, "ed") {
            if args.len() >= 3 {
                Command::EditNote(args[2].clone())
            } else {
                Command::UsageEdit
            }
        } else if str_eq(verb, "swap") {
            if args.len() >= 4 {
                Command::SwapNotes(args[2].clone(), args[3].clone())
            } else {
                Command::UsageSwap
            }
        } else if str_eq(verb, "clear") || str_eq(verb, "cl") {
            Command::ClearNotes
        } else if str_eq(verb, "cd") {
            if args.len() >= 3 {
                Command::SwitchSpace(args[2].clone())
            } else {
                Command::UsageCd
            }
        } else if str_eq(verb, "spaces") {
            if args.len() < 3 {
                return Command::UsageSpaces;
            }
            let sub = args[2].as_str();
            if str_eq(sub, "list") {
                Command::SpacesList
            } else if str_eq(sub, "add") {
                if args.len() >= 4 {
                    Command::SpaceAdd(args[3].clone())
                } else {
                    Command::UsageSpaces
                }
            } else if str_eq(sub, "rm") {
                if args.len() >= 4 {
                    Command::SpaceRemove(args[3].clone())
                } else {
                    Command::UsageSpaces
                }
            } else if str_eq(sub, "use") {
                if args.len() >= 4 {
                    Command::SpaceUse(args[3].clone())
                } else {
                    Command::UsageSpaces
                }
            } else {
                Command::UsageSpaces
            }
        } else {
            Command::UnknownCommand(args[1].clone())
        }
    }
}

/// The lines the `list` command prints: the current space's name in
/// brackets, then one `key: value` line per note, or a single
/// `No notes found` line for an empty store.
pub fn render_listing(store: &NoteStore, space: &str) -> (lines: Vec<String>)
    ensures
        store@.len() == 0 ==> lines@.len() == 2,
        store@.len() > 0 ==> lines@.len() == store@.len() + 1,
        lines@[0]@ == "["@ + space@ + "]"@,
        store@.len() == 0 ==> lines@[1]@ == "No notes found"@,
        forall|i: int| 0 <= i < store@.len() ==> lines@[i + 1]@ == store@[i].0 + ": "@
            + store@[i].1,
{
    let mut lines: Vec<String> = Vec::new();
    lines.push(String::from_str("[").concat(space).concat("]"));
    let ps = store.pairs();
    let n = ps.len();
    if n == 0 {
        lines.push(String::from_str("No notes found"));
        return lines;
    }
    let mut i: usize = 0;
    while i < n
        invariant
            i <= n,
            n == ps@.len(),
            ps.deep_view() == store@,
            lines@.len() == i + 1,
            lines@[0]@ == "["@ + space@ + "]"@,
            forall|k: int| 0 <= k < i ==> lines@[k + 1]@ == store@[k].0 + ": "@ + store@[k].1,
        decreases n - i,
    {
        proof {
            assert(ps.deep_view()[i as int] == (ps@[i as int].0@, ps@[i as int].1@));
        }
        let line = ps[i].0.clone().concat(": ").concat(ps[i].1.as_str());
        lines.push(line);
        i = i + 1;
    }
    lines
}

} // verus!

