//! The retention rule for remote backups: once the number of backups reaches
//! the limit, the oldest one goes.
use vstd::prelude::*;
use vstd::utf8::encode_utf8;

verus! {

/// A backup stored on the remote host, with the modification time the host
/// reports for it (seconds since the epoch).
#[derive(Debug, Clone)]
pub struct BackupObject {
    pub name: String,
    pub mtime: u64,
}

/// Byte-wise lexicographic order, as `str` orders names.
pub open spec fn bytes_lt(a: Seq<u8>, b: Seq<u8>) -> bool
    decreases a.len(),
{
    if a.len() == 0 {
        b.len() > 0
    } else if b.len() == 0 {
        false
    } else if a[0] != b[0] {
        a[0] < b[0]
    } else {
        bytes_lt(a.drop_first(), b.drop_first())
    }
}

/// The bytes of a backup's name.
pub open spec fn name_bytes(o: BackupObject) -> Seq<u8> {
    encode_utf8(o.name@)
}

/// `a` is older than `b`: an earlier modification time, or the same time and
/// a name that sorts first.
pub open spec fn older(a: BackupObject, b: BackupObject) -> bool {
    a.mtime < b.mtime || (a.mtime == b.mtime && bytes_lt(name_bytes(a), name_bytes(b)))
}

/// `i` is the position of the oldest backup of `objects`, the first one where
/// several are equally old.
pub open spec fn is_oldest(objects: Seq<BackupObject>, i: int) -> bool {
    &&& 0 <= i < objects.len()
    &&& forall|j: int| 0 <= j < i ==> older(objects[i], #[trigger] objects[j])
    &&& forall|j: int| i < j < objects.len() ==> !older(#[trigger] objects[j], objects[i])
}

proof fn lemma_bytes_lt_asym(a: Seq<u8>, b: Seq<u8>)
    ensures
        bytes_lt(a, b) ==> !bytes_lt(b, a),
        !bytes_lt(a, b) && !bytes_lt(b, a) ==> a == b,
    decreases a.len(),
{
    if a.len() > 0 && b.len() > 0 && a[0] == b[0] {
        lemma_bytes_lt_asym(a.drop_first(), b.drop_first());
        if a.drop_first() == b.drop_first() {
            assert(a =~= seq![a[0]] + a.drop_first());
            assert(b =~= seq![b[0]] + b.drop_first());
        }
    } else if a.len() == 0 && b.len() == 0 {
        assert(a =~= b);
    }
}

proof fn lemma_bytes_lt_trans(a: Seq<u8>, b: Seq<u8>, c: Seq<u8>)
    requires
        bytes_lt(a, b),
        bytes_lt(b, c),
    ensures
        bytes_lt(a, c),
    decreases a.len(),
{
    if a.len() > 0 && b.len() > 0 && c.len() > 0 && a[0] == b[0] && b[0] == c[0] {
        lemma_bytes_lt_trans(a.drop_first(), b.drop_first(), c.drop_first());
    }
}

/// What `older` needs of the order for a single scan to find the minimum.
proof fn lemma_older_order(a: BackupObject, b: BackupObject, c: BackupObject)
    ensures
        older(a, b) && older(b, c) ==> older(a, c),
        older(a, b) ==> !older(b, a),
        older(a, b) && !older(c, b) ==> older(a, c),
{
    lemma_bytes_lt_asym(name_bytes(a), name_bytes(b));
    lemma_bytes_lt_asym(name_bytes(c), name_bytes(b));
    if older(a, b) && older(b, c) && a.mtime == b.mtime && b.mtime == c.mtime {
        lemma_bytes_lt_trans(name_bytes(a), name_bytes(b), name_bytes(c));
    }
    if older(a, b) && !older(c, b) && a.mtime == c.mtime {
        if name_bytes(c) != name_bytes(b) {
            lemma_bytes_lt_trans(name_bytes(a), name_bytes(b), name_bytes(c));
        }
    }
}

/// Compares two names byte by byte.
fn name_lt(a: &String, b: &String) -> (r: bool)
    ensures
        r == bytes_lt(encode_utf8(a@), encode_utf8(b@)),
{
    let x = a.as_str().as_bytes();
    let y = b.as_str().as_bytes();
    let mut i: usize = 0;
    proof {
        assert(x@.skip(0) =~= x@);
        assert(y@.skip(0) =~= y@);
    }
    while i < x.len() && i < y.len() && x[i] == y[i]
        invariant
            i <= x@.len(),
            i <= y@.len(),
            x@ == encode_utf8(a@),
            y@ == encode_utf8(b@),
            bytes_lt(x@, y@) == bytes_lt(x@.skip(i as int), y@.skip(i as int)),
        decreases x.len() - i,
    {
        proof {
            let xs = x@.skip(i as int);
            let ys = y@.skip(i as int);
            assert(xs.drop_first() =~= x@.skip(i + 1));
            assert(ys.drop_first() =~= y@.skip(i + 1));
        }
        i = i + 1;
    }
    proof {
        assert(x@.skip(i as int).len() == x@.len() - i);
        assert(y@.skip(i as int).len() == y@.len() - i);
    }
    if i < x.len() && i < y.len() {
        x[i] < y[i]
    } else {
        i == x.len() && i < y.len()
    }
}

/// Decides which backup, if any, the retention rule removes from `objects`
/// when at most `max_count` may be kept: none while there are fewer than
/// `max_count`, else exactly the single oldest one (earliest modification
/// time, ties broken by name).  Returns its position.
pub fn evict_if_over_limit(objects: &Vec<BackupObject>, max_count: usize) -> (r: Option<usize>)
    ensures
        (objects@.len() < max_count || objects@.len() == 0) <==> r is None,
        r matches Some(i) ==> is_oldest(objects@, i as int),
{
    if objects.len() < max_count || objects.len() == 0 {
        return None;
    }
    let mut best: usize = 0;
    let mut j: usize = 1;
    while j < objects.len()
        invariant
            1 <= j <= objects@.len(),
            best < j,
            forall|k: int| 0 <= k < best ==> older(objects@[best as int], #[trigger] objects@[k]),
            forall|k: int| best < k < j ==> !older(#[trigger] objects@[k], objects@[best as int]),
        decreases objects.len() - j,
    {
        let cand = &objects[j];
        let cur = &objects[best];
        let is_older = cand.mtime < cur.mtime || (cand.mtime == cur.mtime && name_lt(&cand.name, &cur.name));
        if is_older {
            proof {
                assert forall|k: int| 0 <= k < j implies older(objects@[j as int], #[trigger] objects@[k]) by {
                    lemma_older_order(objects@[j as int], objects@[best as int], objects@[k]);
                }
            }
            best = j;
        }
        j = j + 1;
    }
    Some(best)
}

} // verus!
