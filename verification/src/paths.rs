//! Unix paths as bytes: the parts they are made of.
use crate::text;
use vstd::prelude::*;

verus! {

/// The number of bytes before the first slash.
pub open spec fn part_len(path: Seq<u8>) -> int
    decreases path.len(),
{
    if path.len() == 0 || path[0] == 47 {
        0
    } else {
        1 + part_len(path.drop_first())
    }
}

/// What stands between the slashes.
pub open spec fn pieces(path: Seq<u8>) -> Seq<Seq<u8>>
    decreases path.len(),
{
    let n = part_len(path);
    if 0 <= n < path.len() {
        seq![path.take(n)] + pieces(path.skip(n + 1))
    } else {
        seq![path]
    }
}

pub open spec fn is_absolute(path: Seq<u8>) -> bool {
    path.len() > 0 && path[0] == 47
}

/// The pieces that name something. A dot does so only where the path begins with it.
pub open spec fn named(pieces: Seq<Seq<u8>>) -> Seq<Seq<u8>>
    decreases pieces.len(),
{
    if pieces.len() == 0 {
        Seq::empty()
    } else {
        let rest = named(pieces.drop_last());
        let last = pieces.last();
        if last.len() == 0 || (last == seq![46u8] && pieces.len() > 1) {
            rest
        } else {
            rest.push(last)
        }
    }
}

/// The parts that a path is made of.
pub open spec fn parts(path: Seq<u8>) -> Seq<Seq<u8>> {
    named(pieces(path))
}

/// Whether two paths are the same, however they are written.
pub open spec fn is_same(a: Seq<u8>, b: Seq<u8>) -> bool {
    is_absolute(a) == is_absolute(b) && parts(a) == parts(b)
}

/// Whether a path may lead out of the directory that it is taken in.
pub open spec fn leads_out(path: Seq<u8>) -> bool {
    is_absolute(path) || parts(path).contains(seq![46u8, 46u8])
}

pub(crate) proof fn lemma_part_len(path: Seq<u8>)
    ensures
        0 <= part_len(path) <= path.len(),
        forall|j: int| 0 <= j < part_len(path) ==> path[j] != 47,
        part_len(path) < path.len() ==> path[part_len(path)] == 47,
    decreases path.len(),
{
    if path.len() > 0 && path[0] != 47 {
        lemma_part_len(path.drop_first());
        assert forall|j: int| 0 <= j < part_len(path) implies path[j] != 47 by {
            if j > 0 {
                assert(path.drop_first()[j - 1] == path[j]);
            }
        }
    }
}

fn bytes_between(path: &Vec<u8>, from: usize, to: usize) -> (r: Vec<u8>)
    requires
        from <= to <= path@.len(),
    ensures
        r@ == path@.subrange(from as int, to as int),
{
    let mut out: Vec<u8> = Vec::new();
    let mut i: usize = from;
    while i < to
        invariant
            from <= i <= to <= path@.len(),
            out@ == path@.subrange(from as int, i as int),
        decreases to - i,
    {
        out.push(path[i]);
        i = i + 1;
    }
    out
}

fn same_bytes(a: &Vec<u8>, b: &Vec<u8>) -> (r: bool)
    ensures
        r == (a@ == b@),
{
    if a.len() != b.len() {
        return false;
    }
    let mut i: usize = 0;
    while i < a.len()
        invariant
            i <= a@.len() == b@.len(),
            forall|j: int| 0 <= j < i ==> a@[j] == b@[j],
        decreases a@.len() - i,
    {
        if a[i] != b[i] {
            return false;
        }
        i = i + 1;
    }
    proof {
        assert(a@ =~= b@);
    }
    true
}

/// The byte strings of a list.
pub open spec fn byte_lists(list: Seq<Vec<u8>>) -> Seq<Seq<u8>> {
    list.map_values(|p: Vec<u8>| p@)
}

fn piece_list(path: &Vec<u8>) -> (r: Vec<Vec<u8>>)
    ensures
        byte_lists(r@) == pieces(path@),
{
    let mut out: Vec<Vec<u8>> = Vec::new();
    let mut pos: usize = 0;
    proof {
        assert(path@.skip(0) =~= path@);
        assert(byte_lists(out@) + pieces(path@.skip(0)) =~= pieces(path@));
    }
    loop
        invariant
            pos <= path@.len(),
            byte_lists(out@) + pieces(path@.skip(pos as int)) == pieces(path@),
        decreases path@.len() - pos,
    {
        let ghost rest = path@.skip(pos as int);
        let ghost before = byte_lists(out@);
        let mut i: usize = pos;
        while i < path.len() && path[i] != 47
            invariant
                pos <= i <= path@.len(),
                forall|j: int| pos <= j < i ==> path@[j] != 47,
            decreases path@.len() - i,
        {
            i = i + 1;
        }
        proof {
            lemma_part_len(rest);
            assert(part_len(rest) == i - pos) by {
                if part_len(rest) < i - pos {
                    assert(rest[part_len(rest)] == path@[pos + part_len(rest)]);
                } else if part_len(rest) > i - pos {
                    assert(rest[i - pos] == path@[i as int]);
                }
            }
        }
        let part = bytes_between(path, pos, i);
        let ghost added = part@;
        proof {
            assert(added =~= rest.take(i - pos));
        }
        out.push(part);
        proof {
            assert(byte_lists(out@) =~= before.push(added));
        }
        if i < path.len() {
            proof {
                assert(rest.skip(i - pos + 1) =~= path@.skip(i + 1));
                assert(byte_lists(out@) + pieces(path@.skip(i + 1)) =~= before + pieces(rest));
            }
            pos = i + 1;
        } else {
            proof {
                assert(rest.take(i - pos) =~= rest);
                assert(byte_lists(out@) =~= before + pieces(rest));
            }
            return out;
        }
    }
}

fn part_list(path: &Vec<u8>) -> (r: Vec<Vec<u8>>)
    ensures
        byte_lists(r@) == parts(path@),
{
    let all = piece_list(path);
    let ghost given = byte_lists(all@);
    let mut out: Vec<Vec<u8>> = Vec::new();
    let mut i: usize = 0;
    proof {
        assert(byte_lists(out@) =~= named(given.take(0)));
    }
    while i < all.len()
        invariant
            i <= all@.len(),
            given == byte_lists(all@),
            byte_lists(out@) == named(given.take(i as int)),
        decreases all@.len() - i,
    {
        let piece = &all[i];
        let ghost before = byte_lists(out@);
        proof {
            assert(given.take(i + 1).drop_last() =~= given.take(i as int));
            assert(given.take(i + 1).last() == piece@);
        }
        let dot = piece.len() == 1 && piece[0] == 46;
        proof {
            assert(dot == (piece@ == seq![46u8])) by {
                if dot {
                    assert(piece@ =~= seq![46u8]);
                }
            }
        }
        if !(piece.len() == 0 || (dot && i > 0)) {
            out.push(bytes_between(piece, 0, piece.len()));
            proof {
                assert(piece@.subrange(0, piece@.len() as int) =~= piece@);
                assert(byte_lists(out@) =~= before.push(piece@));
            }
        }
        i = i + 1;
    }
    proof {
        assert(given.take(i as int) =~= given);
    }
    out
}

/// Whether two paths are the same, however they are written.
pub fn same_path(a: &Vec<u8>, b: &Vec<u8>) -> (r: bool)
    ensures
        r == is_same(a@, b@),
{
    let a_root = a.len() > 0 && a[0] == 47;
    let b_root = b.len() > 0 && b[0] == 47;
    let x = part_list(a);
    let y = part_list(b);
    proof {
        assert(byte_lists(x@).len() == x@.len());
        assert(byte_lists(y@).len() == y@.len());
    }
    if a_root != b_root || x.len() != y.len() {
        return false;
    }
    let mut i: usize = 0;
    while i < x.len()
        invariant
            i <= x@.len() == y@.len(),
            byte_lists(x@) == parts(a@),
            byte_lists(y@) == parts(b@),
            forall|j: int| 0 <= j < i ==> #[trigger] x@[j]@ == y@[j]@,
        decreases x@.len() - i,
    {
        if !same_bytes(&x[i], &y[i]) {
            proof {
                assert(byte_lists(x@)[i as int] != byte_lists(y@)[i as int]);
            }
            return false;
        }
        i = i + 1;
    }
    proof {
        assert(byte_lists(x@) =~= byte_lists(y@));
    }
    true
}

/// Whether a path may lead out of the directory that it is taken in.
pub fn escapes(path: &Vec<u8>) -> (r: bool)
    ensures
        r == leads_out(path@),
{
    if path.len() > 0 && path[0] == 47 {
        return true;
    }
    let list = part_list(path);
    let ghost all = byte_lists(list@);
    let mut i: usize = 0;
    while i < list.len()
        invariant
            i <= list@.len(),
            all == byte_lists(list@),
            all == parts(path@),
            !is_absolute(path@),
            forall|j: int| 0 <= j < i ==> #[trigger] all[j] != seq![46u8, 46u8],
        decreases list@.len() - i,
    {
        let piece = &list[i];
        proof {
            assert(all[i as int] == piece@);
        }
        if piece.len() == 2 && piece[0] == 46 && piece[1] == 46 {
            proof {
                assert(piece@ =~= seq![46u8, 46u8]);
            }
            return true;
        }
        i = i + 1;
    }
    false
}

/// The bytes of a text.
pub fn bytes_of(s: &str) -> (r: Vec<u8>)
    ensures
        r@ == vstd::utf8::encode_utf8(s@),
{
    s.as_bytes_vec()
}

/// A path below a directory.
pub open spec fn below(dir: Seq<char>, name: Seq<char>) -> Seq<char> {
    if dir.len() == 0 || dir.last() == '/' {
        dir + name
    } else {
        dir + "/"@ + name
    }
}

pub fn join(dir: &str, name: &str) -> (r: String)
    ensures
        r@ == below(dir@, name@),
{
    let cs = text::chars_of(dir);
    if cs.len() == 0 || cs[cs.len() - 1] == '/' {
        text::joined2(dir, name)
    } else {
        text::joined3(dir, "/", name)
    }
}

} // verus!
