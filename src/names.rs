//! Entry names, the root directory, and the sorted listing.

use vstd::prelude::*;
use vstd::string::*;
use vstd::utf8::encode_utf8;

use crate::error::StoreError;

verus! {

/// Whether a name stays inside the root directory as one file name: not
/// empty, not `.` or `..`, with no `/`, `\` or NUL.
pub open spec fn is_valid_name(name: Seq<char>) -> bool {
    &&& name.len() > 0
    &&& name != seq!['.']
    &&& name != seq!['.', '.']
    &&& forall|i: int| 0 <= i < name.len() ==> name[i] != '/' && name[i] != '\\' && name[i] != '\0'
}

/// Byte-wise lexicographic order: `a` comes no later than `b`.
pub open spec fn bytes_le(a: Seq<u8>, b: Seq<u8>) -> bool
    decreases a.len(),
{
    if a.len() == 0 {
        true
    } else if b.len() == 0 {
        false
    } else if a[0] != b[0] {
        a[0] < b[0]
    } else {
        bytes_le(a.drop_first(), b.drop_first())
    }
}

/// Name `a` sorts no later than name `b`, by the bytes of their UTF-8 form.
pub open spec fn name_le(a: Seq<char>, b: Seq<char>) -> bool {
    bytes_le(encode_utf8(a), encode_utf8(b))
}

/// Each name sorts no later than the next.
pub open spec fn is_sorted(names: Seq<String>) -> bool {
    forall|i: int| 0 <= i < names.len() - 1 ==> name_le(#[trigger] names[i]@, names[i + 1]@)
}

/// The names that could be read, in the order given.
pub open spec fn readable(entries: Seq<Option<String>>) -> Seq<String>
    decreases entries.len(),
{
    if entries.len() == 0 {
        Seq::empty()
    } else {
        let rest = readable(entries.drop_last());
        match entries.last() {
            Some(n) => rest.push(n),
            None => rest,
        }
    }
}

/// Where the root directory is: the explicit one, else `.kayring` under home.
pub open spec fn root_dir_of(dir: Option<Seq<char>>, home: Option<Seq<char>>) -> Option<Seq<char>> {
    match dir {
        Some(d) => Some(d),
        None => match home {
            Some(h) => Some(h + seq!['/', '.', 'k', 'a', 'y', 'r', 'i', 'n', 'g']),
            None => None,
        },
    }
}

/// The characters of an optional string.
pub open spec fn text_of(s: Option<String>) -> Option<Seq<char>> {
    match s {
        Some(t) => Some(t@),
        None => None,
    }
}

/// Checks that `name` can be used as an entry name.
pub fn check_name(name: &str) -> (r: Result<(), StoreError>)
    ensures
        r is Ok <==> is_valid_name(name@),
        r matches Err(e) ==> e == StoreError::InvalidName,
{
    let n = name.unicode_len();
    if n == 0 {
        return Err(StoreError::InvalidName);
    }
    let mut i: usize = 0;
    while i < n
        invariant
            i <= n,
            n == name@.len(),
            forall|k: int| 0 <= k < i ==> name@[k] != '/' && name@[k] != '\\' && name@[k] != '\0',
        decreases n - i,
    {
        let c = name.get_char(i);
        if c == '/' || c == '\\' || c == '\0' {
            return Err(StoreError::InvalidName);
        }
        i = i + 1;
    }
    if name.get_char(0) == '.' && (n == 1 || (n == 2 && name.get_char(1) == '.')) {
        proof {
            if n == 1 {
                assert(name@ =~= seq!['.']);
            } else {
                assert(name@ =~= seq!['.', '.']);
            }
        }
        return Err(StoreError::InvalidName);
    }
    proof {
        if name@ == seq!['.'] {
            assert(name@[0] == '.');
        }
        if name@ == seq!['.', '.'] {
            assert(name@[0] == '.' && name@[1] == '.');
        }
    }
    Ok(())
}

/// The path of entry `name` under `root`.
pub fn entry_path(root: &str, name: &str) -> (r: Result<String, StoreError>)
    ensures
        r is Ok <==> is_valid_name(name@),
        r matches Ok(p) ==> p@ == root@ + seq!['/'] + name@,
        r matches Err(e) ==> e == StoreError::InvalidName,
{
    check_name(name)?;
    let mut p = String::from_str(root);
    p.append("/");
    proof {
        reveal_strlit("/");
    }
    p.append(name);
    Ok(p)
}

/// Relies on home::home_dir, which reads the environment and the user
/// database: nothing is promised of its result.
#[verifier::external_body]
fn home_dir() -> (r: Option<String>) {
    home::home_dir().map(|p| p.to_string_lossy().into_owned())
}

/// Resolves the root directory from an explicit choice and a home directory.
pub fn root_dir_from(dir: Option<String>, home: Option<String>) -> (r: Result<String, StoreError>)
    ensures
        r matches Ok(p) ==> root_dir_of(text_of(dir), text_of(home)) == Some(p@),
        r is Err ==> root_dir_of(text_of(dir), text_of(home)) is None,
        r matches Err(e) ==> e == StoreError::DirectoryResolutionFailure,
{
    match dir {
        Some(d) => Ok(d),
        None => match home {
            Some(h) => {
                let mut p = h;
                p.append("/.kayring");
                proof {
                    reveal_strlit("/.kayring");
                }
                Ok(p)
            },
            None => Err(StoreError::DirectoryResolutionFailure),
        },
    }
}

/// Resolves the root directory: `dir` where given, else `.kayring` under
/// the user's home directory.
pub fn root_dir(dir: Option<String>) -> (r: Result<String, StoreError>)
    ensures
        dir matches Some(d) ==> r matches Ok(p) && p@ == d@,
        r matches Err(e) ==> dir is None && e == StoreError::DirectoryResolutionFailure,
        dir is None && r is Ok ==> exists|h: Seq<char>|
            r->Ok_0@ == #[trigger] root_dir_of(None, Some(h))->Some_0,
{
    match dir {
        Some(d) => root_dir_from(Some(d), None),
        None => {
            let home = home_dir();
            root_dir_from(None, home)
        },
    }
}

proof fn lemma_bytes_le_total(a: Seq<u8>, b: Seq<u8>)
    ensures
        bytes_le(a, b) || bytes_le(b, a),
    decreases a.len(),
{
    if a.len() > 0 && b.len() > 0 && a[0] == b[0] {
        lemma_bytes_le_total(a.drop_first(), b.drop_first());
    }
}

/// Whether name `a` sorts no later than name `b`, comparing their UTF-8
/// bytes.
pub fn name_precedes(a: &str, b: &str) -> (r: bool)
    ensures
        r == name_le(a@, b@),
{
    let x = a.as_bytes();
    let y = b.as_bytes();
    let xn = x.len();
    let yn = y.len();
    let mut i: usize = 0;
    assert(x@.subrange(0, xn as int) =~= x@ && y@.subrange(0, yn as int) =~= y@);
    loop
        invariant
            i <= xn,
            i <= yn,
            xn == x@.len(),
            yn == y@.len(),
            x@ == encode_utf8(a@),
            y@ == encode_utf8(b@),
            bytes_le(x@, y@) == bytes_le(x@.subrange(i as int, xn as int), y@.subrange(i as int, yn as int)),
        decreases xn - i,
    {
        if i == xn {
            return true;
        }
        if i == yn {
            return false;
        }
        if x[i] != y[i] {
            return x[i] < y[i];
        }
        assert(x@.subrange(i as int, xn as int).drop_first() =~= x@.subrange(i + 1, xn as int));
        assert(y@.subrange(i as int, yn as int).drop_first() =~= y@.subrange(i + 1, yn as int));
        i = i + 1;
    }
}

/// Sorts names by the bytes of their UTF-8 form.
pub fn sort_names(names: Vec<String>) -> (r: Vec<String>)
    ensures
        is_sorted(r@),
        r@.to_multiset() == names@.to_multiset(),
{
    let mut out: Vec<String> = Vec::new();
    let n = names.len();
    let mut i: usize = 0;
    assert(names@.subrange(0, 0) =~= out@);
    while i < n
        invariant
            i <= n,
            n == names@.len(),
            is_sorted(out@),
            out@.to_multiset() == names@.subrange(0, i as int).to_multiset(),
        decreases n - i,
    {
        let x = names[i].clone();
        let mut p: usize = 0;
        let mut placed = false;
        while !placed && p < out.len()
            invariant
                p <= out@.len(),
                p > 0 ==> name_le(out@[p - 1]@, x@),
                placed ==> p < out@.len() && !name_le(out@[p as int]@, x@),
            decreases (out@.len() - p) * 2 + if placed { 0int } else { 1int },
        {
            if name_precedes(out[p].as_str(), x.as_str()) {
                p = p + 1;
            } else {
                placed = true;
            }
        }
        let ghost prev = out@;
        out.insert(p, x);
        proof {
            if p < prev.len() {
                lemma_bytes_le_total(encode_utf8(prev[p as int]@), encode_utf8(x@));
            }
            assert forall|k: int| 0 <= k < out@.len() - 1 implies name_le(#[trigger] out@[k]@, out@[k + 1]@) by {
                if k < p - 1 {
                    assert(out@[k] == prev[k] && out@[k + 1] == prev[k + 1]);
                } else if k == p - 1 {
                } else if k == p {
                } else {
                    assert(out@[k] == prev[k - 1] && out@[k + 1] == prev[k]);
                }
            }
            vstd::seq_lib::to_multiset_insert(prev, p as int, x);
            assert(names@.subrange(0, i + 1) =~= names@.subrange(0, i as int).push(names@[i as int]));
            vstd::seq_lib::to_multiset_build(names@.subrange(0, i as int), names@[i as int]);
        }
        i = i + 1;
    }
    assert(names@.subrange(0, n as int) =~= names@);
    out
}

/// The listing of a directory: the names that could be read, sorted by
/// their bytes, and whether any entry could not be read.
pub fn list_names(entries: Vec<Option<String>>) -> (r: (Vec<String>, bool))
    ensures
        is_sorted(r.0@),
        r.0@.to_multiset() == readable(entries@).to_multiset(),
        r.1 <==> exists|i: int| 0 <= i < entries@.len() && #[trigger] entries@[i] is None,
{
    let mut found: Vec<String> = Vec::new();
    let mut unreadable = false;
    let n = entries.len();
    let mut i: usize = 0;
    while i < n
        invariant
            i <= n,
            n == entries@.len(),
            found@ == readable(entries@.subrange(0, i as int)),
            unreadable <==> exists|k: int| 0 <= k < i && #[trigger] entries@[k] is None,
        decreases n - i,
    {
        assert(entries@.subrange(0, i + 1).drop_last() =~= entries@.subrange(0, i as int));
        match &entries[i] {
            Some(name) => {
                found.push(name.clone());
            },
            None => {
                unreadable = true;
            },
        }
        i = i + 1;
    }
    assert(entries@.subrange(0, n as int) =~= entries@);
    (sort_names(found), unreadable)
}

} // verus!
