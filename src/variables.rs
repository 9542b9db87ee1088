//! Reading variable values out of a snapshot of the process environment.
use vstd::prelude::*;
use vstd::string::*;
use crate::error::{ErrorView, ToolError};

verus! {

/// One variable of the environment. A name or a value that is not valid
/// text is `None`.
pub struct EnvVar {
    pub name: Option<String>,
    pub value: Option<String>,
}

/// The characters of an optional string.
pub open spec fn text_of(o: Option<String>) -> Option<Seq<char>> {
    match o {
        Some(s) => Some(s@),
        None => None,
    }
}

/// The characters of each string of an optional result.
pub open spec fn result_view(r: Result<Vec<String>, ToolError>) -> Result<
    Seq<Seq<char>>,
    ErrorView,
> {
    match r {
        Ok(v) => Ok(crate::entries::views(v@)),
        Err(e) => Err(e@),
    }
}

/// The value of the first variable of `env` named `name`: `None` when no
/// variable has that name, `Some(None)` when its value is not valid text.
pub open spec fn lookup(env: Seq<EnvVar>, name: Seq<char>) -> Option<Option<Seq<char>>>
    decreases env.len(),
{
    if env.len() == 0 {
        None
    } else if text_of(env[0].name) == Some(name) {
        Some(text_of(env[0].value))
    } else {
        lookup(env.drop_first(), name)
    }
}

/// `done` put in front of the values of `r`; errors pass through.
pub open spec fn prepend(done: Seq<Seq<char>>, r: Result<Seq<Seq<char>>, ErrorView>) -> Result<
    Seq<Seq<char>>,
    ErrorView,
> {
    match r {
        Ok(vs) => Ok(done + vs),
        Err(e) => Err(e),
    }
}

/// The values of the variables `names`, in order. A variable that is not set
/// contributes nothing, or is an error when `fail_unset` holds; a value that
/// is not text is always an error. The first error in `names` wins.
pub open spec fn read_named(env: Seq<EnvVar>, names: Seq<Seq<char>>, fail_unset: bool) -> Result<
    Seq<Seq<char>>,
    ErrorView,
>
    decreases names.len(),
{
    if names.len() == 0 {
        Ok(Seq::empty())
    } else {
        let rest = read_named(env, names.drop_first(), fail_unset);
        match lookup(env, names[0]) {
            Some(Some(v)) => prepend(seq![v], rest),
            Some(None) => Err(ErrorView::UndecodableValue(names[0])),
            None => if fail_unset {
                Err(ErrorView::UnsetVariable(names[0]))
            } else {
                rest
            },
        }
    }
}

/// The values of every variable of `env`, in order; the first value that is
/// not text is an error, named by its variable when the name is text.
pub open spec fn read_all(env: Seq<EnvVar>) -> Result<Seq<Seq<char>>, ErrorView>
    decreases env.len(),
{
    if env.len() == 0 {
        Ok(Seq::empty())
    } else {
        match env[0].value {
            Some(v) => prepend(seq![v@], read_all(env.drop_first())),
            None => Err(
                match env[0].name {
                    Some(n) => ErrorView::UndecodableValue(n@),
                    None => ErrorView::UnreadableName,
                },
            ),
        }
    }
}

/// The variables to read: `names`, or `PATH` alone when none is given.
pub open spec fn requested(names: Seq<Seq<char>>) -> Seq<Seq<char>> {
    if names.len() == 0 {
        seq!["PATH"@]
    } else {
        names
    }
}

/// The names to read: the given ones, or `PATH` when the list is empty.
pub fn requested_names(vars: &Vec<String>) -> (r: Vec<String>)
    ensures
        crate::entries::views(r@) == requested(crate::entries::views(vars@)),
{
    if vars.len() == 0 {
        let mut r: Vec<String> = Vec::new();
        let path = String::from_str("PATH");
        r.push(path);
        proof {
            assert(crate::entries::views(r@) == seq![path@]);
        }
        r
    } else {
        vars.clone()
    }
}

/// The index of the first variable of `env` named `name`.
fn position_of(env: &Vec<EnvVar>, name: &String) -> (r: Option<usize>)
    ensures
        r is None ==> lookup(env@, name@) is None,
        r matches Some(j) ==> j < env@.len() && lookup(env@, name@) == Some(
            text_of(env@[j as int].value),
        ),
{
    let mut j: usize = 0;
    proof {
        assert(env@.skip(0) == env@);
    }
    while j < env.len()
        invariant
            j <= env@.len(),
            lookup(env@, name@) == lookup(env@.skip(j as int), name@),
        decreases env@.len() - j,
    {
        proof {
            assert(env@.skip(j as int).drop_first() == env@.skip(j + 1));
        }
        match &env[j].name {
            Some(n) => {
                if n.eq(name) {
                    return Some(j);
                }
            },
            None => {},
        }
        j = j + 1;
    }
    None
}

/// Reads the values of `vars` from `env`, in order.
pub fn variable_values(env: &Vec<EnvVar>, vars: &Vec<String>, fail_unset: bool) -> (r: Result<
    Vec<String>,
    ToolError,
>)
    ensures
        result_view(r) == read_named(env@, crate::entries::views(vars@), fail_unset),
{
    let ghost names = crate::entries::views(vars@);
    let mut values: Vec<String> = Vec::new();
    let mut i: usize = 0;
    proof {
        assert(names.skip(0) == names);
        let t = read_named(env@, names, fail_unset);
        if t is Ok {
            assert(crate::entries::views(values@) + t->Ok_0 == t->Ok_0);
        }
    }
    while i < vars.len()
        invariant
            i <= vars@.len(),
            names == crate::entries::views(vars@),
            read_named(env@, names, fail_unset) == prepend(
                crate::entries::views(values@),
                read_named(env@, names.skip(i as int), fail_unset),
            ),
        decreases vars@.len() - i,
    {
        let ghost rest = names.skip(i as int);
        proof {
            assert(rest[0] == vars@[i as int]@);
            assert(rest.drop_first() == names.skip(i + 1));
        }
        match position_of(env, &vars[i]) {
            Some(j) => match &env[j].value {
                Some(v) => {
                    let v = v.clone();
                    proof {
                        assert(crate::entries::views(values@.push(v)) == crate::entries::views(
                            values@,
                        ) + seq![v@]);
                        assert(crate::entries::views(values@) + (seq![v@] + Seq::empty())
                            == crate::entries::views(values@) + seq![v@]);
                        let t = read_named(env@, names.skip(i + 1), fail_unset);
                        if t is Ok {
                            assert(crate::entries::views(values@) + (seq![v@] + t->Ok_0)
                                == crate::entries::views(values@) + seq![v@] + t->Ok_0);
                        }
                    }
                    values.push(v);
                },
                None => {
                    return Err(ToolError::UndecodableValue { name: vars[i].clone() });
                },
            },
            None => {
                if fail_unset {
                    return Err(ToolError::UnsetVariable { name: vars[i].clone() });
                }
            },
        }
        i = i + 1;
    }
    proof {
        assert(crate::entries::views(values@) + Seq::empty() == crate::entries::views(values@));
    }
    Ok(values)
}

/// Reads the value of every variable of `env`, in order.
pub fn all_set_variables_values(env: &Vec<EnvVar>) -> (r: Result<Vec<String>, ToolError>)
    ensures
        result_view(r) == read_all(env@),
{
    let mut values: Vec<String> = Vec::new();
    let mut i: usize = 0;
    proof {
        assert(env@.skip(0) == env@);
        let t = read_all(env@);
        if t is Ok {
            assert(crate::entries::views(values@) + t->Ok_0 == t->Ok_0);
        }
    }
    while i < env.len()
        invariant
            i <= env@.len(),
            read_all(env@) == prepend(crate::entries::views(values@), read_all(env@.skip(i as int))),
        decreases env@.len() - i,
    {
        proof {
            assert(env@.skip(i as int).drop_first() == env@.skip(i + 1));
        }
        match &env[i].value {
            Some(v) => {
                let v = v.clone();
                proof {
                    assert(crate::entries::views(values@.push(v)) == crate::entries::views(values@)
                        + seq![v@]);
                    let t = read_all(env@.skip(i + 1));
                    if t is Ok {
                        assert(crate::entries::views(values@) + (seq![v@] + t->Ok_0)
                            == crate::entries::views(values@) + seq![v@] + t->Ok_0);
                    }
                }
                values.push(v);
            },
            None => {
                return match &env[i].name {
                    Some(n) => Err(ToolError::UndecodableValue { name: n.clone() }),
                    None => Err(ToolError::UnreadableName),
                };
            },
        }
        i = i + 1;
    }
    proof {
        assert(crate::entries::views(values@) + Seq::empty() == crate::entries::views(values@));
    }
    Ok(values)
}

} // verus!
