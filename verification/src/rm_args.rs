//! The option scan of the remove command: which arguments are options,
//! whether they ask for recursion, which option character is invalid,
//! and which arguments are the targets.  The removal itself happens
//! outside the crate.

use vstd::prelude::*;
use crate::parser::{token_views, str_eq_chars};
use crate::text::to_char_vec;

verus! {

/// Whether an argument is written as an option.
pub open spec fn starts_dash(s: Seq<char>) -> bool {
    s.len() > 0 && s[0] == '-'
}

/// Whether an option character is outside the accepted set.
pub open spec fn bad_opt_char(c: char) -> bool {
    c != '-' && c != 'r' && c != 'R'
}

/// The first unaccepted character of a text, if any.
pub open spec fn first_bad(s: Seq<char>) -> Option<char>
    decreases s.len(),
{
    if s.len() == 0 {
        None
    } else if bad_opt_char(s[0]) {
        Some(s[0])
    } else {
        first_bad(s.drop_first())
    }
}

/// The first invalid option character across the arguments, scanning
/// each option argument after its leading dash; the long recursion
/// option is accepted as a whole word.
pub open spec fn invalid_of(args: Seq<String>) -> Option<char>
    decreases args.len(),
{
    if args.len() == 0 {
        None
    } else {
        let a = args[0]@;
        if a == "--recursive"@ {
            invalid_of(args.drop_first())
        } else if starts_dash(a) {
            match first_bad(a.skip(1)) {
                Some(c) => Some(c),
                None => invalid_of(args.drop_first()),
            }
        } else {
            invalid_of(args.drop_first())
        }
    }
}

/// Whether the arguments ask for recursion: any option argument does,
/// once none is invalid.
pub open spec fn rm_recursive_of(args: Seq<String>) -> bool {
    exists|i: int| 0 <= i < args.len() && starts_dash(#[trigger] args[i]@)
}

/// The target arguments, in order: everything not written as an option.
pub open spec fn targets_of(args: Seq<String>) -> Seq<Seq<char>>
    decreases args.len(),
{
    if args.len() == 0 {
        Seq::empty()
    } else {
        targets_of(args.drop_last()) + (if starts_dash(args.last()@) {
            Seq::empty()
        } else {
            seq![args.last()@]
        })
    }
}

/// The outcome of the option scan: the first invalid option character,
/// or the recursion flag and the targets.
pub enum RmPlan {
    Invalid(char),
    Run(bool, Vec<String>),
}

/// Scans the remove command's arguments: reports the first invalid
/// option character, or the recursion flag and the target list.
pub fn rm_options(args: &Vec<String>) -> (r: RmPlan)
    ensures
        match r {
            RmPlan::Invalid(c) => invalid_of(args@) == Some(c),
            RmPlan::Run(recursive, targets) => invalid_of(args@) is None && recursive
                == rm_recursive_of(args@) && token_views(targets@) == targets_of(args@),
        },
{
    let mut recursive = false;
    let mut i: usize = 0;
    proof {
        assert(args@.skip(0) =~= args@);
    }
    while i < args.len()
        invariant
            i <= args@.len(),
            invalid_of(args@) == invalid_of(args@.skip(i as int)),
            recursive == exists|j: int| 0 <= j < i && starts_dash(#[trigger] args@[j]@),
        decreases args@.len() - i,
    {
        proof {
            assert(args@.skip(i as int)[0] == args@[i as int]);
            assert(args@.skip(i as int).drop_first() =~= args@.skip(i + 1));
        }
        let av = to_char_vec(args[i].as_str());
        proof {
            assert(av@ == args@[i as int]@);
        }
        if av.len() > 0 && av[0] == '-' {
            if str_eq_chars(&av, "--recursive") {
                recursive = true;
            } else {
                let mut j: usize = 1;
                while j < av.len()
                    invariant
                        1 <= j <= av@.len(),
                        av@ == args@[i as int]@,
                        i < args@.len(),
                        starts_dash(av@),
                        av@ != "--recursive"@,
                        invalid_of(args@) == invalid_of(args@.skip(i as int)),
                        first_bad(av@.skip(1)) == first_bad(av@.skip(j as int)),
                    decreases av@.len() - j,
                {
                    let c = av[j];
                    proof {
                        assert(av@.skip(j as int)[0] == av@[j as int]);
                        assert(av@.skip(j as int).drop_first() =~= av@.skip(j + 1));
                    }
                    if c != '-' && c != 'r' && c != 'R' {
                        proof {
                            assert(first_bad(av@.skip(j as int)) == Some(c));
                            assert(args@.skip(i as int)[0] == args@[i as int]);
                            assert(starts_dash(args@[i as int]@));
                            assert(invalid_of(args@.skip(i as int)) == Some(c));
                        }
                        return RmPlan::Invalid(c);
                    }
                    j = j + 1;
                }
                proof {
                    assert(av@.skip(av@.len() as int) =~= Seq::<char>::empty());
                }
                recursive = true;
            }
        }
        i = i + 1;
    }
    proof {
        assert(args@.skip(args@.len() as int) =~= Seq::<String>::empty());
    }
    let mut targets: Vec<String> = Vec::new();
    let mut i: usize = 0;
    proof {
        assert(args@.take(0) =~= Seq::<String>::empty());
        assert(token_views(targets@) =~= targets_of(args@.take(0)));
    }
    while i < args.len()
        invariant
            i <= args@.len(),
            token_views(targets@) == targets_of(args@.take(i as int)),
        decreases args@.len() - i,
    {
        proof {
            assert(args@.take(i + 1).drop_last() =~= args@.take(i as int));
            assert(args@.take(i + 1).last() == args@[i as int]);
        }
        let a = &args[i];
        let is_dash = !a.as_str().is_empty() && a.as_str().get_char(0) == '-';
        if !is_dash {
            targets.push(a.clone());
        }
        proof {
            assert(token_views(targets@) =~= targets_of(args@.take(i + 1)));
        }
        i = i + 1;
    }
    proof {
        assert(args@.take(args@.len() as int) =~= args@);
    }
    RmPlan::Run(recursive, targets)
}

} // verus!
