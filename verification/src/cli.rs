//! The choices of the command line that the library knows of, and the reading
//! of free-form arguments.
use vstd::prelude::*;
use crate::params::{ForumDlParameters, ListFilesParameters, ListPagesParameters};
use crate::text::{occurs_at, starts_with, texts};

verus! {

/// The wikis that have a short name.
#[derive(Debug, Clone, Copy, PartialEq, Eq, Structural)]
pub enum Branch {
    FR,
    EN,
    INT,
}

impl Branch {
    /// The base address of the wiki, as text.
    pub open spec fn url_text(self) -> Seq<char> {
        match self {
            Branch::FR => "http://fondationscp.wikidot.com/"@,
            Branch::EN => "http://scp-wiki.wikidot.com/"@,
            Branch::INT => "http://scp-int.wikidot.com/"@,
        }
    }

    /// The base address of the wiki; it ends with a slash.
    pub fn get_url(&self) -> (url: String)
        ensures
            url@ == self.url_text(),
    {
        match self {
            Branch::FR => "http://fondationscp.wikidot.com/".to_string(),
            Branch::EN => "http://scp-wiki.wikidot.com/".to_string(),
            Branch::INT => "http://scp-int.wikidot.com/".to_string(),
        }
    }
}

/// The address of the site of a run: that of the branch where one is given,
/// which overrides any other; else the address given as such.
pub fn site_of(branch: Option<Branch>, site: Option<String>) -> (address: Option<String>)
    ensures
        match branch {
            Some(b) => address matches Some(text) && text@ == b.url_text(),
            None => address == site,
        },
{
    match branch {
        Some(b) => Some(b.get_url()),
        None => site,
    }
}

/// The formats in which a result can be written.
#[derive(Debug, Clone, Copy, PartialEq, Eq, Structural)]
pub enum OutputFormat {
    JSON,
    YAML,
}

/// The scripts, each with its parameters.
#[derive(Debug)]
pub enum Script {
    /// Lists the pages that meet the criteria, with the information asked for.
    ListPages(ListPagesParameters),
    /// Downloads the forum of a wiki.
    ForumDl(ForumDlParameters),
    /// Lists the files of the pages that a listing page of the wiki names.
    ListFiles(ListFilesParameters),
}

/// Whether an argument names a parameter: it begins with a dash.
pub open spec fn is_flag(arg: Seq<char>) -> bool {
    arg.len() > 0 && arg[0] == '-'
}

/// The reading of a run of arguments: the pairs found so far, and the
/// parameter that still waits for its value.
pub open spec fn read_arguments(args: Seq<Seq<char>>) -> (
    Seq<(Seq<char>, Seq<char>)>,
    Option<Seq<char>>,
)
    decreases args.len(),
{
    if args.len() == 0 {
        (Seq::empty(), None)
    } else {
        let (pairs, waiting) = read_arguments(args.drop_last());
        let arg = args.last();
        match waiting {
            Some(name) => if is_flag(arg) {
                (pairs.push((name, Seq::empty())), Some(arg))
            } else {
                (pairs.push((name, arg)), None)
            },
            None => if is_flag(arg) {
                (pairs, Some(arg))
            } else {
                (pairs, None)
            },
        }
    }
}

/// The parameters among the arguments, each with its value: a parameter is
/// an argument that begins with a dash, its value the argument behind it
/// unless that is a parameter too, in which case the value is empty. Values
/// without a parameter before them are passed over.
pub open spec fn parameters_of(args: Seq<Seq<char>>) -> Seq<(Seq<char>, Seq<char>)> {
    let (pairs, waiting) = read_arguments(args);
    match waiting {
        Some(name) => pairs.push((name, Seq::empty())),
        None => pairs,
    }
}

/// The texts of a list of pairs.
pub open spec fn pair_texts(pairs: Seq<(&str, &str)>) -> Seq<(Seq<char>, Seq<char>)> {
    Seq::new(pairs.len(), |i: int| (pairs[i].0@, pairs[i].1@))
}

/// Reads the parameters and their values out of the arguments of the
/// program; the first two arguments, its name and the script, are passed over.
pub fn parse_parameters<'a>(args: &'a Vec<String>) -> (params: Vec<(&'a str, &'a str)>)
    requires
        args.len() >= 2,
    ensures
        pair_texts(params@) == parameters_of(texts(args@).skip(2)),
{
    let mut params: Vec<(&'a str, &'a str)> = Vec::new();
    let mut waiting: Option<&'a str> = None;
    let ghost rest = texts(args@).skip(2);
    let mut i: usize = 2;
    assert(rest.take(0) == Seq::<Seq<char>>::empty());
    assert(pair_texts(params@) =~= Seq::<(Seq<char>, Seq<char>)>::empty());
    while i < args.len()
        invariant
            2 <= i <= args.len(),
            rest == texts(args@).skip(2),
            read_arguments(rest.take(i - 2)) == (
                pair_texts(params@),
                match waiting {
                    Some(name) => Some(name@),
                    None => None,
                },
            ),
        decreases args.len() - i,
    {
        let arg: &'a str = args[i].as_str();
        proof {
            let next = rest.take(i - 2 + 1);
            assert(next.drop_last() == rest.take(i - 2));
            assert(next.last() == arg@);
            if arg@.len() > 0 {
                assert(arg@.subrange(0, 1)[0] == arg@[0]);
                assert("-"@.len() == 1 && "-"@[0] == '-') by {
                    reveal_strlit("-");
                }
                if arg@[0] == '-' {
                    assert(arg@.subrange(0, 1) =~= "-"@);
                }
            } else {
                assert("-"@.len() == 1) by {
                    reveal_strlit("-");
                }
            }
            assert(is_flag(arg@) == occurs_at(arg@, "-"@, 0));
        }
        let flag = starts_with(arg, "-");
        let ghost before = pair_texts(params@);
        match waiting {
            Some(name) => {
                if flag {
                    params.push((name, ""));
                    assert(""@ =~= Seq::<char>::empty()) by {
                        reveal_strlit("");
                    }
                    assert(pair_texts(params@) =~= before.push((name@, Seq::empty())));
                    waiting = Some(arg);
                } else {
                    params.push((name, arg));
                    assert(pair_texts(params@) =~= before.push((name@, arg@)));
                    waiting = None;
                }
            },
            None => {
                if flag {
                    waiting = Some(arg);
                }
            },
        }
        i += 1;
    }
    assert(rest.take(args@.len() - 2) == rest);
    let ghost before = pair_texts(params@);
    match waiting {
        Some(name) => {
            params.push((name, ""));
            assert(""@ =~= Seq::<char>::empty()) by {
                reveal_strlit("");
            }
            assert(pair_texts(params@) =~= before.push((name@, Seq::empty())));
        },
        None => {},
    }
    params
}

} // verus!
