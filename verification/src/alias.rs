//! The device aliaser: a path under the device-mapper prefix names a volume
//! group and a logical volume joined by a dash, where a literal dash in
//! either name is escaped by doubling it. Escaped pairs are consumed first;
//! the first dash left is the structural separator.

use vstd::prelude::*;
use crate::strutil::{push_char, str_to_chars};

verus! {

/// The device-mapper prefix `/dev/mapper/`.
pub open spec fn mapper_prefix() -> Seq<char> {
    seq!['/', 'd', 'e', 'v', '/', 'm', 'a', 'p', 'p', 'e', 'r', '/']
}

/// The index of the structural dash in `s` at or after `i`: doubled dashes
/// are escapes and are stepped over pairwise; the first dash left standing
/// alone is the separator.
pub open spec fn split_index_from(s: Seq<char>, i: int) -> Option<int>
    decreases s.len() - i,
{
    if i < 0 || i >= s.len() {
        None
    } else if s[i] == '-' {
        if i + 1 < s.len() && s[i + 1] == '-' {
            split_index_from(s, i + 2)
        } else {
            Some(i)
        }
    } else {
        split_index_from(s, i + 1)
    }
}

/// The name with its escapes undone: every doubled dash becomes one dash.
pub open spec fn unescape(s: Seq<char>) -> Seq<char>
    decreases s.len(),
{
    if s.len() == 0 {
        Seq::empty()
    } else if s.len() >= 2 && s[0] == '-' && s[1] == '-' {
        seq!['-'] + unescape(s.skip(2))
    } else {
        seq![s[0]] + unescape(s.skip(1))
    }
}

/// What `lvm_alias` returns: for a path under the device-mapper prefix whose
/// remainder has a structural dash, the canonical
/// `/dev/<volume-group>/<logical-volume>` path with the escapes undone in
/// both parts; for any other path, nothing.
pub open spec fn spec_lvm_alias(dev: Seq<char>) -> Option<Seq<char>> {
    if dev.len() < 12 || dev.subrange(0, 12) != mapper_prefix() {
        None
    } else {
        let name = dev.skip(12);
        match split_index_from(name, 0) {
            None => None,
            Some(i) => Some(
                seq!['/', 'd', 'e', 'v', '/'] + unescape(name.subrange(0, i)) + seq!['/']
                    + unescape(name.skip(i + 1)),
            ),
        }
    }
}

/// The characters of the device-mapper prefix.
fn mapper_prefix_chars() -> (p: Vec<char>)
    ensures
        p@ == mapper_prefix(),
{
    let mut p: Vec<char> = Vec::new();
    p.push('/');
    p.push('d');
    p.push('e');
    p.push('v');
    p.push('/');
    p.push('m');
    p.push('a');
    p.push('p');
    p.push('p');
    p.push('e');
    p.push('r');
    p.push('/');
    proof {
        assert(p@ =~= mapper_prefix());
    }
    p
}

/// The structural dash of `v`, if any.
fn find_split(v: &Vec<char>) -> (r: Option<usize>)
    ensures
        match r {
            Some(i) => split_index_from(v@, 0) == Some(i as int) && i < v@.len(),
            None => split_index_from(v@, 0) is None,
        },
{
    let mut j: usize = 0;
    loop
        invariant
            j <= v@.len(),
            split_index_from(v@, 0) == split_index_from(v@, j as int),
        decreases v@.len() - j,
    {
        if j >= v.len() {
            return None;
        }
        if v[j] == '-' {
            if j + 1 < v.len() && v[j + 1] == '-' {
                j = j + 2;
            } else {
                return Some(j);
            }
        } else {
            j = j + 1;
        }
    }
}

/// Appends the unescaped characters of `v[from..to]`.
fn unescape_push(out: &mut String, v: &Vec<char>, from: usize, to: usize)
    requires
        from <= to <= v@.len(),
    ensures
        final(out)@ == old(out)@ + unescape(v@.subrange(from as int, to as int)),
{
    let ghost whole = unescape(v@.subrange(from as int, to as int));
    let mut j: usize = from;
    while j < to
        invariant
            from <= j <= to <= v@.len(),
            out@ + unescape(v@.subrange(j as int, to as int)) == old(out)@ + whole,
            whole == unescape(v@.subrange(from as int, to as int)),
        decreases to - j,
    {
        let ghost sub = v@.subrange(j as int, to as int);
        if v[j] == '-' && j + 1 < to && v[j + 1] == '-' {
            push_char(out, '-');
            proof {
                assert(sub.len() >= 2 && sub[0] == '-' && sub[1] == '-');
                assert(sub.skip(2) =~= v@.subrange(j as int + 2, to as int));
                assert(out@ + unescape(v@.subrange(j as int + 2, to as int)) =~= old(out)@
                    + whole);
            }
            j = j + 2;
        } else {
            let c = v[j];
            push_char(out, c);
            proof {
                assert(sub.len() >= 1 && sub[0] == c);
                assert(!(sub.len() >= 2 && sub[0] == '-' && sub[1] == '-'));
                assert(sub.skip(1) =~= v@.subrange(j as int + 1, to as int));
                assert(out@ + unescape(v@.subrange(j as int + 1, to as int)) =~= old(out)@
                    + whole);
            }
            j = j + 1;
        }
    }
    proof {
        assert(v@.subrange(to as int, to as int) =~= Seq::<char>::empty());
        assert(out@ =~= old(out)@ + whole);
    }
}

/// Canonicalizes a device-mapper path to its `/dev/<vg>/<lv>` form; a path
/// without the prefix, or whose name has no structural dash, has no alias.
pub fn lvm_alias(device: &str) -> (r: Option<String>)
    ensures
        match spec_lvm_alias(device@) {
            Some(t) => r matches Some(s) && s@ == t,
            None => r is None,
        },
{
    let chars = str_to_chars(device);
    if chars.len() < 12 {
        return None;
    }
    let pfx = mapper_prefix_chars();
    let mut k: usize = 0;
    while k < 12
        invariant
            k <= 12,
            chars@.len() >= 12,
            chars@ == device@,
            pfx@ == mapper_prefix(),
            forall|t: int| 0 <= t < k ==> chars@[t] == mapper_prefix()[t],
        decreases 12 - k,
    {
        if chars[k] != pfx[k] {
            proof {
                assert(device@.subrange(0, 12)[k as int] != mapper_prefix()[k as int]);
            }
            return None;
        }
        k = k + 1;
    }
    proof {
        assert(device@.subrange(0, 12) =~= mapper_prefix());
    }
    let mut name: Vec<char> = Vec::new();
    let mut t: usize = 12;
    while t < chars.len()
        invariant
            12 <= t <= chars@.len(),
            chars@ == device@,
            name@ == chars@.subrange(12, t as int),
        decreases chars@.len() - t,
    {
        let c = chars[t];
        name.push(c);
        t = t + 1;
        proof {
            assert(name@ =~= chars@.subrange(12, t as int));
        }
    }
    proof {
        assert(name@ =~= device@.skip(12));
    }
    match find_split(&name) {
        None => None,
        Some(i) => {
            let mut out = String::new();
            push_char(&mut out, '/');
            push_char(&mut out, 'd');
            push_char(&mut out, 'e');
            push_char(&mut out, 'v');
            push_char(&mut out, '/');
            proof {
                assert(out@ =~= seq!['/', 'd', 'e', 'v', '/']);
            }
            unescape_push(&mut out, &name, 0, i);
            push_char(&mut out, '/');
            unescape_push(&mut out, &name, i + 1, name.len());
            proof {
                assert(name@.subrange(i as int + 1, name@.len() as int) =~= name@.skip(
                    i as int + 1,
                ));
                assert(out@ =~= seq!['/', 'd', 'e', 'v', '/'] + unescape(
                    name@.subrange(0, i as int),
                ) + seq!['/'] + unescape(name@.skip(i as int + 1)));
            }
            Some(out)
        },
    }
}

} // verus!
