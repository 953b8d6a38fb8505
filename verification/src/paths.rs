//! Path text: names joined by `/`.

use vstd::prelude::*;

use crate::text::{chars_of, Text};

verus! {

/// The path of `name` in the directory `dir`.
pub open spec fn joined(dir: Text, name: Text) -> Text {
    if dir.len() == 0 || dir.last() == '/' {
        dir + name
    } else {
        dir.push('/') + name
    }
}

/// The path of `name` in the directory `dir`.
pub fn join(dir: &str, name: &str) -> (r: String)
    ensures
        r@ == joined(dir@, name@),
{
    let v = chars_of(dir);
    let mut out = dir.to_owned();
    if v.len() > 0 && v[v.len() - 1] != '/' {
        out.push('/');
    }
    crate::text::append(&mut out, name);
    out
}

/// A name in a directory comes behind it with one slash between the two, and no slash is put
/// where the directory ends with one or is empty.
pub proof fn law_names_in_directories(dir: Text, name: Text)
    ensures
        dir.len() > 0 && dir.last() != '/' ==> joined(dir, name) == dir + seq!['/'] + name,
        joined(dir + seq!['/'], name) == dir + seq!['/'] + name,
        joined(Seq::empty(), name) == name,
{
    assert(dir.push('/') =~= dir + seq!['/']);
    assert((dir + seq!['/']).last() == '/');
    assert(Seq::<char>::empty() + name =~= name);
}

} // verus!
