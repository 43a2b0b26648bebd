//! Host names on the wire: a name is split at its dots into labels, and each
//! label is written as one byte holding its length followed by its bytes; a
//! zero byte ends the name.

use vstd::prelude::*;

verus! {

/// The byte that separates the labels of a host name in text.
pub const DOT: u8 = 0x2e;

/// The number of bytes of `host` that stand before its first dot, or the
/// length of `host` where it has no dot.
pub open spec fn label_len(host: Seq<u8>) -> nat
    decreases host.len(),
{
    if host.len() == 0 || host[0] == DOT {
        0
    } else {
        1 + label_len(host.drop_first())
    }
}

/// The first label ends at the first dot or at the end of the host name.
pub proof fn lemma_label_len(host: Seq<u8>)
    ensures
        label_len(host) <= host.len(),
        forall|k: int| 0 <= k < label_len(host) ==> host[k] != DOT,
        label_len(host) < host.len() ==> host[label_len(host) as int] == DOT,
    decreases host.len(),
{
    if host.len() == 0 || host[0] == DOT {
    } else {
        let rest = host.drop_first();
        lemma_label_len(rest);
        assert forall|k: int| 0 <= k < label_len(host) implies host[k] != DOT by {
            if k > 0 {
                assert(host[k] == rest[k - 1]);
            }
        }
        if label_len(host) < host.len() {
            assert(host[label_len(host) as int] == rest[label_len(rest) as int]);
        }
    }
}

/// A prefix without a dot that ends at a dot or at the end is the first label.
pub proof fn lemma_label_len_is(host: Seq<u8>, n: int)
    requires
        0 <= n <= host.len(),
        forall|k: int| 0 <= k < n ==> host[k] != DOT,
        n < host.len() ==> host[n] == DOT,
    ensures
        label_len(host) == n,
{
    lemma_label_len(host);
    let m = label_len(host) as int;
    if m < n {
        assert(host[m] == DOT);
    } else if n < m {
        assert(host[n] != DOT);
    }
}

/// The labels of a host name: the pieces between its dots, in order. A host
/// name without a dot is one label, the empty name too.
pub open spec fn labels(host: Seq<u8>) -> Seq<Seq<u8>>
    decreases host.len(),
{
    let n = label_len(host) as int;
    if n >= host.len() {
        seq![host]
    } else {
        seq![host.take(n)] + labels(host.skip(n + 1))
    }
}

/// The byte that announces a label: its length, reduced modulo 256 where the
/// label is longer than a byte can say.
pub open spec fn length_byte(label: Seq<u8>) -> u8 {
    (label.len() % 256) as u8
}

/// Labels on the wire, each after its length byte, and the zero byte that
/// ends the name.
pub open spec fn labels_wire(ls: Seq<Seq<u8>>) -> Seq<u8>
    decreases ls.len(),
{
    if ls.len() == 0 {
        seq![0u8]
    } else {
        seq![length_byte(ls[0])] + ls[0] + labels_wire(ls.drop_first())
    }
}

/// A host name on the wire.
pub open spec fn name_wire(host: Seq<u8>) -> Seq<u8> {
    labels_wire(labels(host))
}

/// The number of bytes in all the labels together.
pub open spec fn total_len(ls: Seq<Seq<u8>>) -> nat
    decreases ls.len(),
{
    if ls.len() == 0 {
        0
    } else {
        ls[0].len() + total_len(ls.drop_first())
    }
}

/// A label that a length byte can announce and that does not end the name:
/// between 1 and 255 bytes.
pub open spec fn valid_label(label: Seq<u8>) -> bool {
    1 <= label.len() <= 255
}

/// Every label of the host name has between 1 and 255 bytes.
pub open spec fn valid_host(host: Seq<u8>) -> bool {
    forall|i: int| 0 <= i < labels(host).len() ==> valid_label(#[trigger] labels(host)[i])
}

/// No label of the host name is longer than 255 bytes.
pub open spec fn encodable_host(host: Seq<u8>) -> bool {
    forall|i: int| 0 <= i < labels(host).len() ==> (#[trigger] labels(host)[i]).len() <= 255
}

/// How `name_wire` unfolds at the first label of a host name.
pub proof fn lemma_name_wire_unfold(host: Seq<u8>)
    ensures
        label_len(host) >= host.len() ==> name_wire(host) == seq![length_byte(host)] + host
            + seq![0u8],
        label_len(host) < host.len() ==> name_wire(host) == seq![
            length_byte(host.take(label_len(host) as int)),
        ] + host.take(label_len(host) as int) + name_wire(host.skip(label_len(host) as int + 1)),
{
    lemma_label_len(host);
    let n = label_len(host) as int;
    if n >= host.len() {
        let ls = seq![host];
        assert(labels(host) == ls);
        assert(ls.drop_first() =~= Seq::<Seq<u8>>::empty());
        assert(labels_wire(ls.drop_first()) == seq![0u8]);
        assert(labels_wire(ls) == seq![length_byte(ls[0])] + ls[0] + labels_wire(ls.drop_first()));
    } else {
        let rest = labels(host.skip(n + 1));
        let ls = seq![host.take(n)] + rest;
        assert(labels(host) == ls);
        assert(ls.drop_first() =~= rest);
        assert(ls[0] == host.take(n));
        assert(labels_wire(ls) == seq![length_byte(ls[0])] + ls[0] + labels_wire(ls.drop_first()));
    }
}

/// A host name takes on the wire one byte for each of its labels, the bytes of
/// the labels, and one byte for the end: two bytes more than its text.
pub proof fn lemma_name_wire_len(host: Seq<u8>)
    ensures
        name_wire(host).len() == total_len(labels(host)) + labels(host).len() + 1,
        name_wire(host).len() == host.len() + 2,
        labels(host).len() >= 1,
    decreases host.len(),
{
    lemma_label_len(host);
    lemma_name_wire_unfold(host);
    let n = label_len(host) as int;
    if n >= host.len() {
        let ls = seq![host];
        assert(labels(host) == ls);
        assert(ls.drop_first() =~= Seq::<Seq<u8>>::empty());
        assert(total_len(ls.drop_first()) == 0);
        assert(total_len(ls) == ls[0].len() + total_len(ls.drop_first()));
    } else {
        let tail = host.skip(n + 1);
        lemma_name_wire_len(tail);
        let rest = labels(tail);
        let ls = seq![host.take(n)] + rest;
        assert(labels(host) == ls);
        assert(ls.drop_first() =~= rest);
        assert(ls[0] == host.take(n));
        assert(total_len(ls) == ls[0].len() + total_len(ls.drop_first()));
    }
}

/// The labels of a valid host name: the first is valid, and what follows the
/// first dot is a valid host name again.
pub proof fn lemma_valid_host_unfold(host: Seq<u8>)
    requires
        valid_host(host),
    ensures
        label_len(host) >= host.len() ==> valid_label(host),
        label_len(host) < host.len() ==> valid_label(host.take(label_len(host) as int))
            && valid_host(host.skip(label_len(host) as int + 1)),
{
    lemma_label_len(host);
    let n = label_len(host) as int;
    if n >= host.len() {
        assert(labels(host)[0] == host);
    } else {
        let tail = host.skip(n + 1);
        let ls = labels(host);
        assert(ls == seq![host.take(n)] + labels(tail));
        assert(ls[0] == host.take(n));
        assert forall|i: int| 0 <= i < labels(tail).len() implies valid_label(
            #[trigger] labels(tail)[i],
        ) by {
            assert(ls[i + 1] == labels(tail)[i]);
        }
    }
}

/// Reading a name at `at`: the host name that the labels spell, with dots
/// between them, and the index after the zero byte that ends the name; `None`
/// where the bytes end before the name does.
pub open spec fn parse_name(bytes: Seq<u8>, at: int) -> Option<(Seq<u8>, int)>
    decreases bytes.len() - at,
{
    if at < 0 || at >= bytes.len() {
        None
    } else if bytes[at] == 0 {
        Some((Seq::empty(), at + 1))
    } else {
        let next = at + 1 + bytes[at] as int;
        if next >= bytes.len() {
            None
        } else {
            match parse_name(bytes, next) {
                None => None,
                Some((rest, end)) => Some(
                    (
                        bytes.subrange(at + 1, next) + (if bytes[next] == 0 {
                            Seq::<u8>::empty()
                        } else {
                            seq![DOT] + rest
                        }),
                        end,
                    ),
                ),
            }
        }
    }
}

/// A name that is read ends after its start and within the bytes.
pub proof fn lemma_parse_name_bounds(bytes: Seq<u8>, at: int)
    ensures
        parse_name(bytes, at) matches Some((_, end)) ==> at < end <= bytes.len(),
    decreases bytes.len() - at,
{
    if at < 0 || at >= bytes.len() {
    } else if bytes[at] == 0 {
    } else if at + 1 + bytes[at] as int >= bytes.len() {
    } else {
        lemma_parse_name_bounds(bytes, at + 1 + bytes[at] as int);
    }
}

/// A valid host name is read back from its wire form, wherever that stands
/// among other bytes.
pub proof fn lemma_parse_name_wire(host: Seq<u8>, before: Seq<u8>, after: Seq<u8>)
    requires
        valid_host(host),
    ensures
        parse_name(before + name_wire(host) + after, before.len() as int) == Some(
            (host, (before.len() + name_wire(host).len()) as int),
        ),
        name_wire(host)[0] != 0,
    decreases host.len(),
{
    lemma_label_len(host);
    lemma_name_wire_unfold(host);
    lemma_valid_host_unfold(host);
    let n = label_len(host) as int;
    let at = before.len() as int;
    let full = before + name_wire(host) + after;
    let next = at + 1 + n;
    if n >= host.len() {
        assert(full[at] == length_byte(host));
        assert(full[next] == 0);
        assert(parse_name(full, next) == Some((Seq::<u8>::empty(), next + 1)));
        assert(full.subrange(at + 1, next) =~= host);
        assert(host + Seq::<u8>::empty() =~= host);
    } else {
        let first = host.take(n);
        let tail = host.skip(n + 1);
        let before2 = before + seq![length_byte(first)] + first;
        lemma_parse_name_wire(tail, before2, after);
        assert(full =~= before2 + name_wire(tail) + after);
        assert(full[at] == length_byte(first));
        assert(full[next] == name_wire(tail)[0]);
        assert(full.subrange(at + 1, next) =~= first);
        assert(host[n] == DOT);
        assert(first + (seq![DOT] + tail) =~= host);
    }
}

/// Writes a host name in its wire form: for each label its length byte and
/// its bytes, then the zero byte.
pub fn encode_name(host: &[u8]) -> (out: Vec<u8>)
    ensures
        out@ == name_wire(host@),
        out@.len() == total_len(labels(host@)) + labels(host@).len() + 1,
{
    proof {
        lemma_name_wire_len(host@);
    }
    let n = host.len();
    let mut out: Vec<u8> = Vec::new();
    let mut i: usize = 0;
    let mut done = false;
    assert(host@.skip(0) =~= host@);
    while !done
        invariant
            n == host@.len(),
            i <= n,
            !done ==> out@ + name_wire(host@.skip(i as int)) == name_wire(host@),
            done ==> out@ == name_wire(host@),
        decreases n - i + (if done { 0int } else { 1int }),
    {
        let ghost rest = host@.skip(i as int);
        let ghost written = out@;
        let mut j: usize = i;
        while j < n && host[j] != DOT
            invariant
                n == host@.len(),
                i <= j <= n,
                forall|k: int| i <= k < j ==> host@[k] != DOT,
            decreases n - j,
        {
            j = j + 1;
        }
        let len: usize = j - i;
        proof {
            lemma_label_len_is(rest, len as int);
            lemma_name_wire_unfold(rest);
        }
        out.push((len % 256) as u8);
        let mut k: usize = i;
        while k < j
            invariant
                n == host@.len(),
                i <= k <= j <= n,
                out@ == written + seq![(len % 256) as u8] + host@.subrange(i as int, k as int),
            decreases j - k,
        {
            out.push(host[k]);
            assert(host@.subrange(i as int, k as int).push(host@[k as int]) =~= host@.subrange(
                i as int,
                k + 1,
            ));
            k = k + 1;
        }
        if j == n {
            out.push(0);
            done = true;
            proof {
                assert(host@.subrange(i as int, j as int) =~= rest);
                assert(out@ =~= written + (seq![length_byte(rest)] + rest + seq![0u8]));
            }
        } else {
            proof {
                let first = rest.take(len as int);
                assert(host@.subrange(i as int, j as int) =~= first);
                assert(rest.skip(len + 1) =~= host@.skip(j + 1));
                assert(out@ + name_wire(host@.skip(j + 1)) =~= written + (seq![length_byte(first)]
                    + first + name_wire(rest.skip(len + 1))));
            }
            i = j + 1;
        }
    }
    out
}

/// Whether no label of the host name is longer than 255 bytes.
pub fn is_encodable(host: &[u8]) -> (ok: bool)
    ensures
        ok == encodable_host(host@),
{
    let n = host.len();
    let mut i: usize = 0;
    let mut done = false;
    assert(host@.skip(0) =~= host@);
    while !done
        invariant
            n == host@.len(),
            i <= n,
            !done ==> encodable_host(host@) == encodable_host(host@.skip(i as int)),
            done ==> encodable_host(host@),
        decreases n - i + (if done { 0int } else { 1int }),
    {
        let ghost rest = host@.skip(i as int);
        let mut j: usize = i;
        while j < n && host[j] != DOT
            invariant
                n == host@.len(),
                i <= j <= n,
                forall|k: int| i <= k < j ==> host@[k] != DOT,
            decreases n - j,
        {
            j = j + 1;
        }
        let len: usize = j - i;
        proof {
            lemma_label_len_is(rest, len as int);
            lemma_encodable_unfold(rest);
            if j < n {
                assert(rest.skip(len + 1) =~= host@.skip(j + 1));
            }
        }
        if len > 255 {
            return false;
        }
        if j == n {
            done = true;
        } else {
            i = j + 1;
        }
    }
    true
}

/// A host name can be encoded when its first label is short enough and what
/// follows the first dot can be encoded.
pub proof fn lemma_encodable_unfold(host: Seq<u8>)
    ensures
        label_len(host) >= host.len() ==> encodable_host(host) == (host.len() <= 255),
        label_len(host) < host.len() ==> encodable_host(host) == (label_len(host) <= 255
            && encodable_host(host.skip(label_len(host) as int + 1))),
{
    lemma_label_len(host);
    let n = label_len(host) as int;
    let ls = labels(host);
    if n >= host.len() {
        assert(ls == seq![host]);
        assert(ls[0] == host);
    } else {
        let tail = host.skip(n + 1);
        assert(ls == seq![host.take(n)] + labels(tail));
        assert(ls[0] == host.take(n));
        if encodable_host(host) {
            assert forall|i: int| 0 <= i < labels(tail).len() implies (#[trigger] labels(
                tail,
            )[i]).len() <= 255 by {
                assert(ls[i + 1] == labels(tail)[i]);
            }
        }
        if n <= 255 && encodable_host(tail) {
            assert forall|i: int| 0 <= i < ls.len() implies (#[trigger] ls[i]).len() <= 255 by {
                if i > 0 {
                    assert(ls[i] == labels(tail)[i - 1]);
                }
            }
        }
    }
}

} // verus!
