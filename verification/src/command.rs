use vstd::prelude::*;

verus! {

/// A program to run, with its arguments and the directory to run it in
/// (`None`: the current one).
#[derive(Debug)]
pub struct CommandLine {
    pub program: String,
    pub args: Vec<String>,
    pub dir: Option<String>,
}

pub open spec fn arg_views(args: Seq<String>) -> Seq<Seq<char>> {
    args.map_values(|s: String| s@)
}

/// Builds a list of arguments from string slices.
pub fn args_of(parts: &[&str]) -> (r: Vec<String>)
    ensures
        arg_views(r@) == parts@.map_values(|s: &str| s@),
{
    let mut out: Vec<String> = Vec::new();
    let mut i: usize = 0;
    while i < parts.len()
        invariant
            i <= parts.len(),
            arg_views(out@) == parts@.take(i as int).map_values(|s: &str| s@),
        decreases parts.len() - i,
    {
        let ghost before = out@;
        out.push(String::from_str(parts[i]));
        assert(arg_views(out@) =~= arg_views(before).push(parts@[i as int]@));
        assert(parts@.take(i + 1).map_values(|s: &str| s@) =~= parts@.take(i as int).map_values(|s: &str| s@).push(parts@[i as int]@));
        i = i + 1;
    }
    assert(parts@.take(parts.len() as int) =~= parts@);
    out
}

} // verus!
