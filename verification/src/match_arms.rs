//! The source text offered for the cases that a match over a union does
//! not handle.
use vstd::prelude::*;
use vstd::string::*;

use crate::order::string_views;

verus! {

/// The names `names` separated by a comma and a space.
pub open spec fn comma_separated(names: Seq<Seq<char>>) -> Seq<char>
    decreases names.len(),
{
    if names.len() == 0 {
        Seq::empty()
    } else if names.len() == 1 {
        names[0]
    } else {
        comma_separated(names.drop_last()) + ", "@ + names.last()
    }
}

/// The arm `when Union.Case(a, b) then` and a line break; a case without
/// parameters has no parentheses.
pub open spec fn match_arm_text(union_name: Seq<char>, case_name: Seq<char>, parameters: Seq<Seq<char>>) -> Seq<char> {
    "when "@ + union_name + "."@ + case_name + (if parameters.len() == 0 {
        Seq::empty()
    } else {
        "("@ + comma_separated(parameters) + ")"@
    }) + " then\n"@
}

/// The arms of the cases, in order; each case is its name and the names of
/// its parameters.
pub open spec fn match_arms_text(union_name: Seq<char>, cases: Seq<(Seq<char>, Seq<Seq<char>>)>) -> Seq<char>
    decreases cases.len(),
{
    if cases.len() == 0 {
        Seq::empty()
    } else {
        match_arms_text(union_name, cases.drop_last()) + match_arm_text(union_name, cases.last().0, cases.last().1)
    }
}

/// The cases as names and parameter names.
pub open spec fn case_views(cases: Seq<(String, Vec<String>)>) -> Seq<(Seq<char>, Seq<Seq<char>>)> {
    cases.map_values(|c: (String, Vec<String>)| (c.0@, string_views(c.1@)))
}

/// The arms a match over the union `union_name` lacks for `cases`, each
/// given by its name and the names of its parameters.
pub fn missing_match_arms(union_name: &str, cases: &[(String, Vec<String>)]) -> (r: String)
    ensures
        r@ == match_arms_text(union_name@, case_views(cases@)),
{
    let mut replacement = String::new();
    let mut i: usize = 0;
    while i < cases.len()
        invariant
            i <= cases@.len(),
            replacement@ == match_arms_text(union_name@, case_views(cases@.take(i as int))),
        decreases cases.len() - i,
    {
        let (name, parameters) = &cases[i];
        let ghost before = replacement@;
        replacement.append("when ");
        replacement.append(union_name);
        replacement.append(".");
        replacement.append(name.as_str());
        if parameters.len() > 0 {
            replacement.append("(");
            let mut j: usize = 0;
            while j < parameters.len()
                invariant
                    0 < parameters@.len(),
                    j <= parameters@.len(),
                    replacement@ == before + "when "@ + union_name@ + "."@ + name@ + "("@ + comma_separated(
                        string_views(parameters@.take(j as int)),
                    ),
                decreases parameters.len() - j,
            {
                let ghost prior = replacement@;
                if j != 0 {
                    replacement.append(", ");
                }
                replacement.append(parameters[j].as_str());
                proof {
                    let taken = string_views(parameters@.take(j as int + 1));
                    assert(taken.drop_last() =~= string_views(parameters@.take(j as int)));
                    assert(taken.last() == parameters@[j as int]@);
                    if j == 0 {
                        assert(comma_separated(string_views(parameters@.take(0))) =~= Seq::<char>::empty());
                        assert(replacement@ =~= prior + parameters@[0]@);
                    } else {
                        assert(replacement@ =~= prior + ", "@ + parameters@[j as int]@);
                    }
                }
                j = j + 1;
            }
            replacement.append(")");
            proof {
                assert(parameters@.take(parameters@.len() as int) =~= parameters@);
            }
        }
        replacement.append(" then\n");
        proof {
            let views = case_views(cases@.take(i as int + 1));
            assert(views.drop_last() =~= case_views(cases@.take(i as int)));
            assert(views.last() == (name@, string_views(parameters@)));
            assert(replacement@ =~= before + match_arm_text(union_name@, name@, string_views(parameters@)));
        }
        i = i + 1;
    }
    proof {
        assert(cases@.take(cases@.len() as int) =~= cases@);
    }
    replacement
}

} // verus!
