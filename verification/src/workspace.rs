//! The working-tree collaborator's decision core: which directory entries
//! a traversal must skip. The traversal itself walks the file system and
//! lives outside the verified library; it consults [`Workspace::is_ignored`]
//! for every name it meets.
use vstd::prelude::*;

use crate::codec::bytes_eq;

verus! {

/// The names a working-tree traversal always skips: the current and
/// parent directory, the object store itself, and build output.
pub open spec fn default_ignores() -> Seq<Seq<u8>> {
    seq![
        seq![46u8],
        seq![46u8, 46u8],
        seq![46u8, 103u8, 105u8, 116u8],
        seq![116u8, 97u8, 114u8, 103u8, 101u8, 116u8],
    ]
}

/// A working tree rooted at a path, with the set of names its traversal
/// ignores.
pub struct Workspace {
    pub ignore: Vec<Vec<u8>>,
    pub path: Vec<u8>,
}

impl Workspace {
    /// The ignored names, as byte strings.
    pub open spec fn ignore_views(&self) -> Seq<Seq<u8>> {
        self.ignore@.map_values(|v: Vec<u8>| v@)
    }

    pub fn new(path: Vec<u8>) -> (w: Workspace)
        ensures
            w.path@ == path@,
            w.ignore_views() == default_ignores(),
    {
        let mut ignore: Vec<Vec<u8>> = Vec::new();
        let mut dot: Vec<u8> = Vec::new();
        dot.push(46);
        assert(dot@ =~= seq![46u8]);
        ignore.push(dot);
        let mut dotdot: Vec<u8> = Vec::new();
        dotdot.push(46);
        dotdot.push(46);
        assert(dotdot@ =~= seq![46u8, 46u8]);
        ignore.push(dotdot);
        let mut git: Vec<u8> = Vec::new();
        git.push(46);
        git.push(103);
        git.push(105);
        git.push(116);
        assert(git@ =~= seq![46u8, 103u8, 105u8, 116u8]);
        ignore.push(git);
        let mut target: Vec<u8> = Vec::new();
        target.push(116);
        target.push(97);
        target.push(114);
        target.push(103);
        target.push(101);
        target.push(116);
        assert(target@ =~= seq![116u8, 97u8, 114u8, 103u8, 101u8, 116u8]);
        ignore.push(target);
        let w = Workspace { ignore, path };
        assert(w.ignore_views() =~= default_ignores());
        w
    }

    /// Whether a traversal must skip this name.
    pub fn is_ignored(&self, name: &Vec<u8>) -> (r: bool)
        ensures
            r == self.ignore_views().contains(name@),
    {
        let mut i: usize = 0;
        while i < self.ignore.len()
            invariant
                i <= self.ignore@.len(),
                forall|k: int| 0 <= k < i ==> self.ignore_views()[k] != name@,
            decreases self.ignore@.len() - i,
        {
            if bytes_eq(&self.ignore[i], name) {
                assert(self.ignore_views()[i as int] == name@);
                return true;
            }
            i = i + 1;
        }
        assert(!self.ignore_views().contains(name@));
        false
    }
}

} // verus!
