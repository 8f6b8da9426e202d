use vstd::prelude::*;
use vstd::string::{StrSliceExecFns, StringExecFns};

verus! {

/// A name that stands for one entry directly inside a directory: not empty,
/// not `.` or `..`, and free of path separators and NUL.
pub open spec fn is_plain_name(name: Seq<char>) -> bool {
    &&& name.len() > 0
    &&& name != seq!['.']
    &&& name != seq!['.', '.']
    &&& forall|i: int|
        0 <= i < name.len() ==> #[trigger] name[i] != '/' && name[i] != '\\' && name[i] != '\0'
}

/// `name` placed under the directory `root`, with one separator between them.
pub open spec fn joined(root: Seq<char>, name: Seq<char>) -> Seq<char> {
    if root.len() == 0 {
        name
    } else if root.last() == '/' {
        root + name
    } else {
        root + seq!['/'] + name
    }
}

/// Whether `name` can be resolved under a directory without leaving it.
pub fn check_plain_name(name: &str) -> (r: bool)
    ensures
        r == is_plain_name(name@),
{
    let n = name.unicode_len();
    if n == 0 {
        return false;
    }
    let first = name.get_char(0);
    if n == 1 && first == '.' {
        assert(name@ =~= seq!['.']);
        return false;
    }
    if n == 2 && first == '.' && name.get_char(1) == '.' {
        assert(name@ =~= seq!['.', '.']);
        return false;
    }
    assert(name@ != seq!['.']) by {
        if name@ == seq!['.'] {
            assert(name@[0] == '.');
        }
    }
    assert(name@ != seq!['.', '.']) by {
        if name@ == seq!['.', '.'] {
            assert(name@[0] == '.' && name@[1] == '.');
        }
    }
    let mut i: usize = 0;
    while i < n
        invariant
            n == name@.len(),
            i <= n,
            forall|j: int|
                0 <= j < i ==> #[trigger] name@[j] != '/' && name@[j] != '\\' && name@[j] != '\0',
        decreases n - i,
    {
        let c = name.get_char(i);
        if c == '/' || c == '\\' || c == '\0' {
            return false;
        }
        i += 1;
    }
    true
}

/// The path of `name` under the directory `root`.
pub fn join_path(root: &str, name: &str) -> (r: String)
    ensures
        r@ == joined(root@, name@),
{
    let n = root.unicode_len();
    if n == 0 {
        String::from_str(name)
    } else if root.get_char(n - 1) == '/' {
        String::from_str(root).concat(name)
    } else {
        let sep = "/";
        proof {
            reveal_strlit("/");
        }
        String::from_str(root).concat(sep).concat(name)
    }
}

/// The path of `name` under `root`, or `None` where `name` is not a plain
/// name and so could reach outside `root`.
pub fn resolve_under(root: &str, name: &str) -> (r: Option<String>)
    ensures
        is_plain_name(name@) ==> (r matches Some(p) && p@ == joined(root@, name@)),
        !is_plain_name(name@) ==> r is None,
{
    if check_plain_name(name) {
        Some(join_path(root, name))
    } else {
        None
    }
}

} // verus!
