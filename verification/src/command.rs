//! Building the argument vectors for the version-control subcommands. Every
//! builder pins the exact argument list; in particular the two force flags
//! are mutually exclusive, with the numeric force level selecting between
//! them.

use vstd::prelude::*;
use vstd::string::StringExecFns;

verus! {

/// Prepends the executable name to an argument list.
pub fn createcommand<'a>(args: &[&'a str]) -> (r: Vec<&'a str>)
    ensures
        r@.len() == args@.len() + 1,
        r@[0]@ == "git"@,
        forall|i: int| 0 <= i < args@.len() ==> r@[i + 1] == args@[i],
{
    let mut r: Vec<&'a str> = Vec::new();
    r.push("git");
    r.extend_from_slice(args);
    r
}

/// The staging arguments: everything when no files are named, the named
/// files otherwise.
pub open spec fn stage_args_spec(files: Option<Seq<Seq<char>>>) -> Seq<Seq<char>> {
    match files {
        None => seq!["add"@, "."@],
        Some(fs) => seq!["add"@] + fs,
    }
}

/// The commit arguments: the message, passed by flag.
pub open spec fn commit_args_spec(message: Seq<char>) -> Seq<Seq<char>> {
    seq!["commit"@, "-m"@, message]
}

/// The push arguments: the optional upstream comes first, then exactly one of
/// the two force flags when the force level calls for it — lease-guarded at
/// level one, unconditional at level two or above.
pub open spec fn push_args_spec(upstream: Option<Seq<char>>, force: u8) -> Seq<Seq<char>> {
    let base = match upstream {
        Some(u) => seq!["push"@, "--set-upstream"@, "origin"@, u],
        None => seq!["push"@],
    };
    if force == 1 {
        base + seq!["--force-with-lease"@]
    } else if force >= 2 {
        base + seq!["--force"@]
    } else {
        base
    }
}

/// Builds the staging arguments, as `stage_args_spec` describes.
pub fn stage_args(files: &Option<Vec<String>>) -> (r: Vec<String>)
    ensures
        r.deep_view() == stage_args_spec(
            match files {
                Some(fs) => Some(fs.deep_view()),
                None => None,
            },
        ),
{
    let mut r: Vec<String> = Vec::new();
    r.push(String::from_str("add"));
    match files {
        None => {
            r.push(String::from_str("."));
            proof {
                assert(r.deep_view() =~~= seq!["add"@, "."@]);
            }
        },
        Some(fs) => {
            let ghost fsv = fs.deep_view();
            let mut i: usize = 0;
            proof {
                assert(r.deep_view() =~~= seq!["add"@] + fsv.take(0));
            }
            while i < fs.len()
                invariant
                    fsv == fs.deep_view(),
                    fsv.len() == fs@.len(),
                    0 <= i <= fs@.len(),
                    r.deep_view() == seq!["add"@] + fsv.take(i as int),
                decreases fs@.len() - i,
            {
                let ghost prev = r.deep_view();
                let f = (&fs[i]).clone();
                proof {
                    assert(fs@[i as int].deep_view() == fsv[i as int]);
                }
                r.push(f);
                proof {
                    assert(r.deep_view() =~~= prev + seq![fsv[i as int]]);
                    assert(r.deep_view() =~= seq!["add"@] + fsv.take(i + 1));
                }
                i += 1;
            }
            proof {
                assert(fsv.take(fs@.len() as int) =~= fsv);
            }
        },
    }
    r
}

/// Builds the commit arguments, as `commit_args_spec` describes.
pub fn commit_args(message: &str) -> (r: Vec<String>)
    ensures
        r.deep_view() == commit_args_spec(message@),
{
    let mut r: Vec<String> = Vec::new();
    r.push(String::from_str("commit"));
    r.push(String::from_str("-m"));
    r.push(String::from_str(message));
    proof {
        assert(r.deep_view() =~~= commit_args_spec(message@));
    }
    r
}

/// Builds the push arguments, as `push_args_spec` describes.
pub fn push_args(upstream: &Option<String>, force: u8) -> (r: Vec<String>)
    ensures
        r.deep_view() == push_args_spec(
            match upstream {
                Some(u) => Some(u@),
                None => None,
            },
            force,
        ),
{
    let mut r: Vec<String> = Vec::new();
    r.push(String::from_str("push"));
    match upstream {
        Some(u) => {
            r.push(String::from_str("--set-upstream"));
            r.push(String::from_str("origin"));
            r.push(u.clone());
        },
        None => {},
    }
    let ghost base = r.deep_view();
    proof {
        match upstream {
            Some(u) => {
                assert(base =~~= seq!["push"@, "--set-upstream"@, "origin"@, u@]);
            },
            None => {
                assert(base =~~= seq!["push"@]);
            },
        }
    }
    if force == 1 {
        let ghost prev = r.deep_view();
        r.push(String::from_str("--force-with-lease"));
        proof {
            assert(r.deep_view() =~~= prev + seq!["--force-with-lease"@]);
        }
    } else if force >= 2 {
        let ghost prev = r.deep_view();
        r.push(String::from_str("--force"));
        proof {
            assert(r.deep_view() =~~= prev + seq!["--force"@]);
        }
    }
    r
}

/// The two force flags are mutually exclusive and the numeric force level —
/// not a boolean — selects between them: the lease-guarded flag appears
/// exactly at level one, the unconditional flag exactly at level two or
/// above (as long as the upstream name is not itself spelled like a flag).
pub proof fn lemma_force_flags_exclusive(upstream: Option<Seq<char>>, force: u8)
    requires
        upstream matches Some(u) ==> u != "--force-with-lease"@ && u != "--force"@,
    ensures
        push_args_spec(upstream, force).contains("--force-with-lease"@) <==> force == 1,
        push_args_spec(upstream, force).contains("--force"@) <==> force >= 2,
        !(push_args_spec(upstream, force).contains("--force-with-lease"@) && push_args_spec(
            upstream,
            force,
        ).contains("--force"@)),
{
    reveal_strlit("push");
    reveal_strlit("--set-upstream");
    reveal_strlit("origin");
    reveal_strlit("--force-with-lease");
    reveal_strlit("--force");
    let args = push_args_spec(upstream, force);
    let lease = "--force-with-lease"@;
    let plain = "--force"@;
    assert(lease.len() == 18);
    assert(plain.len() == 7);
    assert("push"@.len() == 4);
    assert("--set-upstream"@.len() == 14);
    assert("origin"@.len() == 6);
    assert("--set-upstream"@ != plain && "--set-upstream"@ != lease) by {
        assert("--set-upstream"@[2] == 's');
        assert(plain[2] == 'f');
        assert(lease[2] == 'f');
    }
    match upstream {
        Some(u) => {
            if force == 1 {
                assert(args =~= seq!["push"@, "--set-upstream"@, "origin"@, u, lease]);
                assert(args.contains(lease)) by {
                    assert(args[4] == lease);
                }
                assert(!args.contains(plain)) by {
                    assert(forall|i: int| 0 <= i < args.len() ==> args[i] != plain);
                }
            } else if force >= 2 {
                assert(args =~= seq!["push"@, "--set-upstream"@, "origin"@, u, plain]);
                assert(args.contains(plain)) by {
                    assert(args[4] == plain);
                }
                assert(!args.contains(lease)) by {
                    assert(forall|i: int| 0 <= i < args.len() ==> args[i] != lease);
                }
            } else {
                assert(args =~= seq!["push"@, "--set-upstream"@, "origin"@, u]);
                assert(!args.contains(lease)) by {
                    assert(forall|i: int| 0 <= i < args.len() ==> args[i] != lease);
                }
                assert(!args.contains(plain)) by {
                    assert(forall|i: int| 0 <= i < args.len() ==> args[i] != plain);
                }
            }
        },
        None => {
            if force == 1 {
                assert(args =~= seq!["push"@, lease]);
                assert(args.contains(lease)) by {
                    assert(args[1] == lease);
                }
                assert(!args.contains(plain)) by {
                    assert(forall|i: int| 0 <= i < args.len() ==> args[i] != plain);
                }
            } else if force >= 2 {
                assert(args =~= seq!["push"@, plain]);
                assert(args.contains(plain)) by {
                    assert(args[1] == plain);
                }
                assert(!args.contains(lease)) by {
                    assert(forall|i: int| 0 <= i < args.len() ==> args[i] != lease);
                }
            } else {
                assert(args =~= seq!["push"@]);
                assert(!args.contains(lease)) by {
                    assert(forall|i: int| 0 <= i < args.len() ==> args[i] != lease);
                }
                assert(!args.contains(plain)) by {
                    assert(forall|i: int| 0 <= i < args.len() ==> args[i] != plain);
                }
            }
        },
    }
}

} // verus!
