//! The digest log: an ordered list of items, kept in the order they were attached.
use vstd::prelude::*;
use crate::codec::{decoding, encodable, encoding, lemma_decoding_encoded, DecodeError};
use crate::compact::{compact_read, compact_u32, lemma_compact_read_encoded, push_compact, read_compact};
use crate::item::{DigestItem, ItemView};

verus! {

/// Generic header digest.
#[derive(Debug, PartialEq, Eq, Clone)]
pub struct Digest {
    /// A list of logs in the digest.
    pub logs: Vec<DigestItem>,
}

impl View for Digest {
    type V = Seq<ItemView>;

    open spec fn view(&self) -> Seq<ItemView> {
        self.logs@.map_values(|x: DigestItem| x@)
    }
}

/// `r` is what a first-match search of `logs` with `f` gives: what `f` returned on the
/// earliest item on which it returned `Some`, after `None` on every item before it; or
/// `None`, after `None` on every item.
pub open spec fn first_found<R, F: Fn(&DigestItem) -> Option<R>>(
    logs: Seq<DigestItem>,
    f: F,
    r: Option<R>,
) -> bool {
    match r {
        None => forall|j: int| 0 <= j < logs.len() ==> #[trigger] f.ensures((&logs[j],), None),
        Some(_) => exists|i: int|
            0 <= i < logs.len() && #[trigger] f.ensures((&logs[i],), r) && forall|j: int|
                0 <= j < i ==> #[trigger] f.ensures((&logs[j],), None),
    }
}

impl Default for Digest {
    fn default() -> (r: Digest)
        ensures
            r.logs@.len() == 0,
    {
        Digest { logs: Vec::new() }
    }
}

impl Digest {
    /// Get reference to all digest items.
    pub fn logs(&self) -> (r: &[DigestItem])
        ensures
            r@ == self.logs@,
    {
        self.logs.as_slice()
    }

    /// Push new digest item.
    pub fn push(&mut self, item: DigestItem)
        ensures
            final(self).logs@ == old(self).logs@.push(item),
    {
        self.logs.push(item);
    }

    /// Pop a digest item.
    pub fn pop(&mut self) -> (r: Option<DigestItem>)
        ensures
            old(self).logs@.len() == 0 ==> r is None && final(self).logs@ == old(self).logs@,
            old(self).logs@.len() > 0 ==> r == Some(old(self).logs@.last()) && final(self).logs@
                == old(self).logs@.drop_last(),
    {
        self.logs.pop()
    }

    /// Get reference to the first digest item that matches the passed predicate.
    pub fn log<T: ?Sized, F: Fn(&DigestItem) -> Option<&T>>(&self, predicate: F) -> (r: Option<&T>)
        requires
            forall|j: int| 0 <= j < self.logs@.len() ==> #[trigger] predicate.requires((&self.logs@[j],)),
        ensures
            r is None ==> forall|j: int| 0 <= j < self.logs@.len() ==> #[trigger] predicate.ensures((&self.logs@[j],), None),
            r is Some ==> exists|i: int|
                0 <= i < self.logs@.len() && #[trigger] predicate.ensures((&self.logs@[i],), r) && forall|j: int|
                    0 <= j < i ==> #[trigger] predicate.ensures((&self.logs@[j],), None),
    {
        let mut i: usize = 0;
        while i < self.logs.len()
            invariant
                i <= self.logs@.len(),
                forall|j: int| 0 <= j < self.logs@.len() ==> #[trigger] predicate.requires((&self.logs@[j],)),
                forall|j: int| 0 <= j < i ==> #[trigger] predicate.ensures((&self.logs@[j],), None),
            decreases self.logs@.len() - i,
        {
            let r = predicate(&self.logs[i]);
            if r.is_some() {
                return r;
            }
            i += 1;
        }
        None
    }

    /// Get a conversion of the first digest item that successfully converts using the function.
    pub fn convert_first<T, F: Fn(&DigestItem) -> Option<T>>(&self, predicate: F) -> (r: Option<T>)
        requires
            forall|j: int| 0 <= j < self.logs@.len() ==> #[trigger] predicate.requires((&self.logs@[j],)),
        ensures
            first_found(self.logs@, predicate, r),
    {
        let mut i: usize = 0;
        while i < self.logs.len()
            invariant
                i <= self.logs@.len(),
                forall|j: int| 0 <= j < self.logs@.len() ==> #[trigger] predicate.requires((&self.logs@[j],)),
                forall|j: int| 0 <= j < i ==> #[trigger] predicate.ensures((&self.logs@[j],), None),
            decreases self.logs@.len() - i,
        {
            let r = predicate(&self.logs[i]);
            if r.is_some() {
                return r;
            }
            i += 1;
        }
        None
    }
}

/// Where the items at `i` and at a later `j` both convert and no item before `i` does,
/// a first-match search gives what the item at `i` converts to, never the later one.
pub proof fn lemma_first_match_earlier<R, F: Fn(&DigestItem) -> Option<R>>(
    d: Digest,
    f: F,
    i: int,
    j: int,
    r: Option<R>,
)
    requires
        0 <= i < j < d.logs@.len(),
        forall|o: Option<R>| #[trigger] f.ensures((&d.logs@[i],), o) ==> o is Some,
        forall|o: Option<R>| #[trigger] f.ensures((&d.logs@[j],), o) ==> o is Some,
        forall|k: int, o: Option<R>| 0 <= k < i && #[trigger] f.ensures((&d.logs@[k],), o) ==> o is None,
        first_found(d.logs@, f, r),
    ensures
        f.ensures((&d.logs@[i],), r),
{
    if r is None {
        assert(f.ensures((&d.logs@[i],), None));
    } else {
        let k = choose|k: int|
            0 <= k < d.logs@.len() && #[trigger] f.ensures((&d.logs@[k],), r) && forall|m: int|
                0 <= m < k ==> #[trigger] f.ensures((&d.logs@[m],), None);
        if k < i {
            assert(f.ensures((&d.logs@[k],), r));
        } else if k > i {
            assert(f.ensures((&d.logs@[i],), None));
        }
    }
}

/// The items' encodings one after another.
pub open spec fn items_encoding(s: Seq<ItemView>) -> Seq<u8>
    decreases s.len(),
{
    if s.len() == 0 {
        Seq::empty()
    } else {
        items_encoding(s.drop_last()) + encoding(s.last())
    }
}

/// The bytes of a log: the compact count of items, then the items.
pub open spec fn log_encoding(s: Seq<ItemView>) -> Seq<u8> {
    compact_u32(s.len() as u32) + items_encoding(s)
}

/// A log can be encoded: its count fits a `u32` and each item can be encoded.
pub open spec fn log_encodable(s: Seq<ItemView>) -> bool {
    s.len() <= u32::MAX && forall|i: int| 0 <= i < s.len() ==> #[trigger] encodable(s[i])
}

/// Decoding `n` items one after another from position `pos`: the items and the position
/// after the last, or the first error.
pub open spec fn items_decoding(b: Seq<u8>, pos: nat, n: nat) -> Result<(Seq<ItemView>, nat), DecodeError>
    decreases n,
{
    if n == 0 {
        Ok((Seq::empty(), pos))
    } else {
        match items_decoding(b, pos, (n - 1) as nat) {
            Err(e) => Err(e),
            Ok((xs, at)) => match decoding(b.skip(at as int)) {
                Err(e) => Err(e),
                Ok((x, k)) => Ok((xs.push(x), at + k)),
            },
        }
    }
}

/// What decoding a log from the front of `b` gives: the items and the number of bytes
/// taken, or the error. A count that cannot be read is `TruncatedInput`.
pub open spec fn log_decoding(b: Seq<u8>) -> Result<(Seq<ItemView>, nat), DecodeError> {
    match compact_read(b) {
        None => Err(DecodeError::TruncatedInput),
        Some((n, k)) => items_decoding(b, k, n as nat),
    }
}

proof fn lemma_items_decoding_err(b: Seq<u8>, pos: nat, i: nat, n: nat, e: DecodeError)
    requires
        i <= n,
        items_decoding(b, pos, i) == Err::<(Seq<ItemView>, nat), DecodeError>(e),
    ensures
        items_decoding(b, pos, n) == Err::<(Seq<ItemView>, nat), DecodeError>(e),
    decreases n - i,
{
    if i < n {
        lemma_items_decoding_err(b, pos, i, (n - 1) as nat, e);
    }
}

proof fn lemma_items_encoding_split(s: Seq<ItemView>, i: int, j: int)
    requires
        0 <= i <= j <= s.len(),
    ensures
        items_encoding(s.take(j)) == items_encoding(s.take(i)) + items_encoding(s.subrange(i, j)),
    decreases j - i,
{
    if i == j {
        assert(s.subrange(i, j) =~= Seq::<ItemView>::empty());
        assert(items_encoding(s.take(i)) + Seq::empty() =~= items_encoding(s.take(i)));
    } else {
        lemma_items_encoding_split(s, i, j - 1);
        assert(s.take(j).drop_last() =~= s.take(j - 1));
        assert(s.subrange(i, j).drop_last() =~= s.subrange(i, j - 1));
        assert(items_encoding(s.take(j)) =~= items_encoding(s.take(i)) + items_encoding(s.subrange(i, j)));
    }
}

proof fn lemma_items_encoding_at(s: Seq<ItemView>, p: int)
    requires
        0 <= p < s.len(),
    ensures
        items_encoding(s) == items_encoding(s.take(p)) + encoding(s[p]) + items_encoding(
            s.subrange(p + 1, s.len() as int),
        ),
{
    let n = s.len() as int;
    lemma_items_encoding_split(s, p, n);
    let tail = s.subrange(p, n);
    lemma_items_encoding_split(tail, 1, tail.len() as int);
    assert(s.take(n) =~= s);
    let first = tail.take(1);
    assert(first.drop_last().len() == 0);
    assert(items_encoding(first.drop_last()) == Seq::<u8>::empty());
    assert(first.last() == s[p]);
    assert(items_encoding(first) == Seq::<u8>::empty() + encoding(s[p]));
    assert(items_encoding(first) =~= encoding(s[p]));
    assert(tail.take(tail.len() as int) =~= tail);
    assert(tail.subrange(1, tail.len() as int) =~= s.subrange(p + 1, n));
    assert(items_encoding(tail) =~= encoding(s[p]) + items_encoding(s.subrange(p + 1, n)));
}

proof fn lemma_skip_to_item(s: Seq<ItemView>, head: Seq<u8>, rest: Seq<u8>, p: int)
    requires
        0 <= p < s.len(),
    ensures
        (head + items_encoding(s) + rest).skip((head.len() + items_encoding(s.take(p)).len()) as int)
            == encoding(s[p]) + (items_encoding(s.subrange(p + 1, s.len() as int)) + rest),
{
    lemma_items_encoding_at(s, p);
    let a = head + items_encoding(s.take(p));
    let c = encoding(s[p]) + (items_encoding(s.subrange(p + 1, s.len() as int)) + rest);
    assert(head + items_encoding(s) + rest =~= a + c);
    assert((a + c).skip(a.len() as int) =~= c);
}

proof fn lemma_items_decoding_encoded(s: Seq<ItemView>, head: Seq<u8>, rest: Seq<u8>, i: nat)
    requires
        i <= s.len(),
        forall|m: int| 0 <= m < s.len() ==> #[trigger] encodable(s[m]),
    ensures
        items_decoding(head + items_encoding(s) + rest, head.len(), i) == Ok::<(Seq<ItemView>, nat), DecodeError>(
            (s.take(i as int), head.len() + items_encoding(s.take(i as int)).len()),
        ),
    decreases i,
{
    let b = head + items_encoding(s) + rest;
    if i == 0 {
        assert(s.take(0) =~= Seq::<ItemView>::empty());
    } else {
        let p = (i - 1) as int;
        lemma_items_decoding_encoded(s, head, rest, (i - 1) as nat);
        let at = head.len() + items_encoding(s.take(p)).len();
        let later = items_encoding(s.subrange(p + 1, s.len() as int)) + rest;
        lemma_skip_to_item(s, head, rest, p);
        assert(encodable(s[p]));
        lemma_decoding_encoded(s[p], later);
        assert(s.take(p).push(s[p]) =~= s.take(i as int));
        assert(s.take(i as int).drop_last() =~= s.take(p));
    }
}

/// Decoding the encoding of any encodable log gives that log back, in the same order,
/// taking all of its bytes.
pub proof fn lemma_log_round_trip(d: Digest)
    requires
        log_encodable(d@),
    ensures
        log_decoding(log_encoding(d@)) == Ok::<(Seq<ItemView>, nat), DecodeError>(
            (d@, log_encoding(d@).len()),
        ),
{
    let s = d@;
    let c = compact_u32(s.len() as u32);
    lemma_compact_read_encoded(s.len() as u32, items_encoding(s));
    lemma_items_decoding_encoded(s, c, Seq::empty(), s.len());
    assert(c + items_encoding(s) + Seq::empty() =~= log_encoding(s));
    assert(s.take(s.len() as int) =~= s);
}

impl Digest {
    /// Encodes the log: the compact count of items, then each item's encoding in order.
    pub fn encode(&self) -> (r: Vec<u8>)
        requires
            log_encodable(self@),
        ensures
            r@ == log_encoding(self@),
    {
        let mut v: Vec<u8> = Vec::new();
        push_compact(&mut v, self.logs.len() as u32);
        let mut i: usize = 0;
        while i < self.logs.len()
            invariant
                i <= self.logs@.len(),
                log_encodable(self@),
                v@ == compact_u32(self@.len() as u32) + items_encoding(self@.take(i as int)),
            decreases self.logs@.len() - i,
        {
            assert(encodable(self@[i as int]));
            let mut e = self.logs[i].encode();
            v.append(&mut e);
            proof {
                assert(self@.take(i + 1).drop_last() =~= self@.take(i as int));
            }
            i += 1;
        }
        assert(self@.take(i as int) =~= self@);
        v
    }

    /// Decodes a log from the front of `input`: the compact count, then that many items.
    /// On success returns the log and the number of bytes it took.
    pub fn decode(input: &[u8]) -> (r: Result<(Digest, usize), DecodeError>)
        ensures
            match log_decoding(input@) {
                Ok((xs, k)) => r matches Ok((d, n)) && d@ == xs && n == k,
                Err(e) => r == Err::<(Digest, usize), DecodeError>(e),
            },
    {
        match read_compact(input) {
            None => Err(DecodeError::TruncatedInput),
            Some((n, left)) => {
                let len = input.len();
                let start = len - left;
                let mut pos = start;
                let mut logs: Vec<DigestItem> = Vec::new();
                let mut i: u32 = 0;
                assert(logs@.map_values(|x: DigestItem| x@) =~= Seq::<ItemView>::empty());
                while i < n
                    invariant
                        start == input@.len() - left,
                        compact_read(input@) == Some((n, start as nat)),
                        i <= n,
                        len == input@.len(),
                        pos <= len,
                        items_decoding(input@, start as nat, i as nat) == Ok::<(Seq<ItemView>, nat), DecodeError>(
                            (logs@.map_values(|x: DigestItem| x@), pos as nat),
                        ),
                    decreases n - i,
                {
                    let (_, tail) = input.split_at(pos);
                    assert(tail@ =~= input@.skip(pos as int));
                    match DigestItem::decode(tail) {
                        Err(e) => {
                            proof {
                                lemma_items_decoding_err(input@, start as nat, (i + 1) as nat, n as nat, e);
                            }
                            return Err(e);
                        },
                        Ok((x, m)) => {
                            assert(m <= len - pos);
                            let ghost before = logs@;
                            logs.push(x);
                            assert(logs@.map_values(|x: DigestItem| x@) =~= before.map_values(
                                |x: DigestItem| x@,
                            ).push(x@));
                            pos = pos + m;
                        },
                    }
                    i += 1;
                }
                Ok((Digest { logs }, pos))
            },
        }
    }
}

} // verus!
