//! Finding a loaded library's path in a line of a process memory map.

use vstd::prelude::*;

verus! {

/// Whether `name` occurs in `line` at byte `i`.
pub open spec fn occurs_at(line: Seq<u8>, name: Seq<u8>, i: int) -> bool {
    0 <= i && i + name.len() <= line.len() && line.subrange(i, i + name.len()) == name
}

/// Whether `name` occurs anywhere in `line`.
pub open spec fn mentions(line: Seq<u8>, name: Seq<u8>) -> bool {
    exists|i: int| occurs_at(line, name, i)
}

/// Whether `j` is the first `/` of `line`.
pub open spec fn is_first_slash(line: Seq<u8>, j: int) -> bool {
    0 <= j < line.len() && line[j] == 0x2f && forall|k: int| 0 <= k < j ==> line[k] != 0x2f
}

fn occurs_at_exec(line: &[u8], name: &[u8], i: usize) -> (r: bool)
    requires
        i + name@.len() <= line@.len(),
    ensures
        r == occurs_at(line@, name@, i as int),
{
    let n = line.len();
    let mut k: usize = 0;
    while k < name.len()
        invariant
            n == line@.len(),
            i + name@.len() <= line@.len(),
            0 <= k <= name@.len(),
            forall|m: int| 0 <= m < k ==> line@[i + m] == name@[m],
        decreases name@.len() - k,
    {
        if line[i + k] != name[k] {
            assert(line@.subrange(i as int, i + name@.len())[k as int] != name@[k as int]);
            return false;
        }
        k = k + 1;
    }
    assert(line@.subrange(i as int, i + name@.len()) =~= name@);
    true
}

/// Where the path starts in a memory-map line that mentions `library_name`:
/// the line's first `/`. `None` where the line does not mention the library
/// or holds no `/`.
pub fn library_path_start(line: &[u8], library_name: &[u8]) -> (r: Option<usize>)
    ensures
        r matches Some(j) ==> mentions(line@, library_name@) && is_first_slash(line@, j as int),
        r is None ==> !mentions(line@, library_name@) || forall|k: int| 0 <= k < line@.len() ==> line@[k] != 0x2f,
{
    if library_name.len() > line.len() {
        return None;
    }
    let n = line.len();
    let last = n - library_name.len();
    let mut i: usize = 0;
    let mut found = library_name.len() == 0;
    if found {
        assert(line@.subrange(0, 0) =~= library_name@);
        assert(occurs_at(line@, library_name@, 0));
    }
    while i <= last && !found
        invariant
            n == line@.len(),
            last + library_name@.len() == line@.len(),
            library_name@.len() > 0 || found,
            0 <= i <= last + 1,
            found ==> mentions(line@, library_name@),
            !found ==> forall|m: int| 0 <= m < i ==> !occurs_at(line@, library_name@, m),
        decreases last + 1 - i + (if found { 0int } else { 1int }),
    {
        if occurs_at_exec(line, library_name, i) {
            found = true;
        } else {
            i = i + 1;
        }
    }
    if !found {
        return None;
    }
    let mut j: usize = 0;
    while j < line.len()
        invariant
            mentions(line@, library_name@),
            0 <= j <= line@.len(),
            forall|k: int| 0 <= k < j ==> line@[k] != 0x2f,
        decreases line@.len() - j,
    {
        if line[j] == 0x2f {
            return Some(j);
        }
        j = j + 1;
    }
    None
}

} // verus!
