//! Completion of a command name: the executables found on the search path
//! and the common shell built-ins that start with what was typed, sorted and
//! without repeats.
//!
//! Names are compared as `str` compares them: by their UTF-8 bytes.

use vstd::prelude::*;
use vstd::string::StringSliceAdditionalSpecFns;
use vstd::utf8::encode_utf8;

verus! {

/// How many built-in commands are offered.
pub const BUILTIN_COUNT: usize = 23;

/// The `i`th built-in command.
pub open spec fn builtin(i: int) -> Seq<char> {
    if i == 0 {
        "alias"@
    } else if i == 1 {
        "cat"@
    } else if i == 2 {
        "cd"@
    } else if i == 3 {
        "clear"@
    } else if i == 4 {
        "cp"@
    } else if i == 5 {
        "echo"@
    } else if i == 6 {
        "exit"@
    } else if i == 7 {
        "export"@
    } else if i == 8 {
        "find"@
    } else if i == 9 {
        "grep"@
    } else if i == 10 {
        "help"@
    } else if i == 11 {
        "history"@
    } else if i == 12 {
        "ls"@
    } else if i == 13 {
        "mkdir"@
    } else if i == 14 {
        "mv"@
    } else if i == 15 {
        "pwd"@
    } else if i == 16 {
        "quit"@
    } else if i == 17 {
        "rm"@
    } else if i == 18 {
        "type"@
    } else if i == 19 {
        "unalias"@
    } else if i == 20 {
        "unset"@
    } else if i == 21 {
        "where"@
    } else {
        "which"@
    }
}

/// Whether `a` sorts strictly before `b`, byte by byte.
pub open spec fn bytes_lt(a: Seq<u8>, b: Seq<u8>) -> bool
    decreases a.len(),
{
    if a.len() == 0 {
        b.len() > 0
    } else if b.len() == 0 {
        false
    } else if a[0] != b[0] {
        a[0] < b[0]
    } else {
        bytes_lt(a.drop_first(), b.drop_first())
    }
}

/// Whether the name's bytes begin with the prefix's bytes.
pub open spec fn starts_with(name: Seq<char>, prefix: Seq<char>) -> bool {
    let n = encode_utf8(name);
    let p = encode_utf8(prefix);
    p.len() <= n.len() && n.subrange(0, p.len() as int) == p
}

/// Whether `c` is one of the names in `r`.
pub open spec fn listed(r: Seq<String>, c: Seq<char>) -> bool {
    exists|i: int| 0 <= i < r.len() && #[trigger] r[i]@ == c
}

/// Whether `c` is one of the first `n` built-in commands.
pub open spec fn builtin_within(n: int, c: Seq<char>) -> bool {
    exists|i: int| 0 <= i < n && #[trigger] builtin(i) == c
}

/// The names offered for `prefix`: nothing for an empty prefix, otherwise each
/// found name and each built-in that starts with it.
pub open spec fn wanted(prefix: Seq<char>, found: Seq<String>, c: Seq<char>) -> bool {
    &&& prefix.len() > 0
    &&& starts_with(c, prefix)
    &&& (listed(found, c) || builtin_within(BUILTIN_COUNT as int, c))
}

/// Names in strictly increasing byte order, hence without repeats.
pub open spec fn strictly_sorted(r: Seq<String>) -> bool {
    forall|i: int| 0 <= i < r.len() - 1 ==> bytes_lt(encode_utf8(#[trigger] r[i]@), encode_utf8(r[i + 1]@))
}

/// No two names are the same.
pub open spec fn distinct(r: Seq<String>) -> bool {
    forall|i: int, j: int| 0 <= i < r.len() && 0 <= j < r.len() && i != j ==> #[trigger] r[i]@ != #[trigger] r[j]@
}

fn builtin_name(i: usize) -> (r: &'static str)
    requires
        i < BUILTIN_COUNT,
    ensures
        r@ == builtin(i as int),
{
    if i == 0 {
        "alias"
    } else if i == 1 {
        "cat"
    } else if i == 2 {
        "cd"
    } else if i == 3 {
        "clear"
    } else if i == 4 {
        "cp"
    } else if i == 5 {
        "echo"
    } else if i == 6 {
        "exit"
    } else if i == 7 {
        "export"
    } else if i == 8 {
        "find"
    } else if i == 9 {
        "grep"
    } else if i == 10 {
        "help"
    } else if i == 11 {
        "history"
    } else if i == 12 {
        "ls"
    } else if i == 13 {
        "mkdir"
    } else if i == 14 {
        "mv"
    } else if i == 15 {
        "pwd"
    } else if i == 16 {
        "quit"
    } else if i == 17 {
        "rm"
    } else if i == 18 {
        "type"
    } else if i == 19 {
        "unalias"
    } else if i == 20 {
        "unset"
    } else if i == 21 {
        "where"
    } else {
        "which"
    }
}

proof fn lemma_bytes_lt_total(a: Seq<u8>, b: Seq<u8>)
    requires
        a != b,
        !bytes_lt(a, b),
    ensures
        bytes_lt(b, a),
    decreases a.len(),
{
    if a.len() == 0 {
        assert(b.len() == 0 ==> a =~= b);
    } else if b.len() == 0 {
    } else if a[0] != b[0] {
    } else {
        assert(a.drop_first() != b.drop_first()) by {
            if a.drop_first() == b.drop_first() {
                assert(a =~= seq![a[0]] + a.drop_first());
                assert(b =~= seq![b[0]] + b.drop_first());
            }
        }
        lemma_bytes_lt_total(a.drop_first(), b.drop_first());
    }
}

fn less_than(a: &[u8], b: &[u8]) -> (r: bool)
    ensures
        r == bytes_lt(a@, b@),
{
    let mut i: usize = 0;
    assert(a@.skip(0) =~= a@);
    assert(b@.skip(0) =~= b@);
    while i < a.len() && i < b.len()
        invariant
            i <= a@.len(),
            i <= b@.len(),
            bytes_lt(a@, b@) == bytes_lt(a@.skip(i as int), b@.skip(i as int)),
        decreases a@.len() - i,
    {
        if a[i] != b[i] {
            return a[i] < b[i];
        }
        assert(a@.skip(i as int).drop_first() =~= a@.skip(i + 1));
        assert(b@.skip(i as int).drop_first() =~= b@.skip(i + 1));
        i = i + 1;
    }
    a.len() < b.len()
}

fn has_prefix(name: &str, prefix: &str) -> (r: bool)
    ensures
        r == starts_with(name@, prefix@),
{
    let n = name.as_bytes();
    let p = prefix.as_bytes();
    if p.len() > n.len() {
        return false;
    }
    let mut i: usize = 0;
    while i < p.len()
        invariant
            n@ == encode_utf8(name@),
            p@ == encode_utf8(prefix@),
            p@.len() <= n@.len(),
            i <= p@.len(),
            forall|j: int| 0 <= j < i ==> n@[j] == p@[j],
        decreases p@.len() - i,
    {
        if n[i] != p[i] {
            assert(n@.subrange(0, p@.len() as int)[i as int] != p@[i as int]);
            return false;
        }
        i = i + 1;
    }
    assert(n@.subrange(0, p@.len() as int) =~= p@);
    true
}

fn contains_name(r: &Vec<String>, name: &String) -> (b: bool)
    ensures
        b == exists|i: int| 0 <= i < r@.len() && #[trigger] r@[i]@ == name@,
{
    let mut i: usize = 0;
    while i < r.len()
        invariant
            i <= r@.len(),
            forall|j: int| 0 <= j < i ==> #[trigger] r@[j]@ != name@,
        decreases r@.len() - i,
    {
        if r[i] == *name {
            return true;
        }
        i = i + 1;
    }
    false
}

/// Adds `name` to a sorted list without repeats, keeping it so.
fn insert_sorted(r: &mut Vec<String>, name: String)
    requires
        strictly_sorted(old(r)@),
        distinct(old(r)@),
    ensures
        strictly_sorted(final(r)@),
        distinct(final(r)@),
        forall|c: Seq<char>| #[trigger] listed(final(r)@, c) <==> (c == name@ || listed(old(r)@, c)),
{
    if contains_name(r, &name) {
        return;
    }
    let ghost before = r@;
    let mut j: usize = 0;
    while j < r.len() && less_than(r[j].as_str().as_bytes(), name.as_str().as_bytes())
        invariant
            r@ == before,
            j <= r@.len(),
            j > 0 ==> bytes_lt(encode_utf8(r@[j - 1]@), encode_utf8(name@)),
        decreases r@.len() - j,
    {
        j = j + 1;
    }
    proof {
        if j < before.len() {
            assert(before[j as int]@ != name@);
            assert(encode_utf8(before[j as int]@) != encode_utf8(name@)) by {
                vstd::utf8::encode_utf8_decode_utf8(before[j as int]@);
                vstd::utf8::encode_utf8_decode_utf8(name@);
            }
            lemma_bytes_lt_total(encode_utf8(before[j as int]@), encode_utf8(name@));
        }
    }
    let ghost nv = name@;
    r.insert(j, name);
    proof {
        let jj = j as int;
        assert forall|i: int| 0 <= i < r@.len() implies #[trigger] r@[i] == (if i < jj {
            before[i]
        } else if i == jj {
            r@[jj]
        } else {
            before[i - 1]
        }) by {}
        assert(r@[jj]@ == nv);
        assert forall|i: int| 0 <= i < r@.len() - 1 implies bytes_lt(
            encode_utf8(#[trigger] r@[i]@),
            encode_utf8(r@[i + 1]@),
        ) by {
            if i + 1 < jj {
                assert(r@[i] == before[i] && r@[i + 1] == before[i + 1]);
            } else if i + 1 == jj {
                assert(r@[i] == before[i]);
            } else if i == jj {
                assert(r@[i + 1] == before[i]);
            } else {
                assert(r@[i] == before[i - 1] && r@[i + 1] == before[i]);
            }
        }
        assert forall|a: int, b: int| 0 <= a < r@.len() && 0 <= b < r@.len() && a != b implies #[trigger] r@[a]@
            != #[trigger] r@[b]@ by {
            let a0 = if a < jj { a } else { a - 1 };
            let b0 = if b < jj { b } else { b - 1 };
            if a != jj && b != jj {
                assert(r@[a] == before[a0] && r@[b] == before[b0]);
            } else if a == jj {
                assert(r@[b] == before[b0]);
            } else {
                assert(r@[a] == before[a0]);
            }
        }
        assert forall|c: Seq<char>| #[trigger] listed(r@, c) <==> (c == nv || listed(before, c)) by {
            if exists|i: int| 0 <= i < r@.len() && #[trigger] r@[i]@ == c {
                let i = choose|i: int| 0 <= i < r@.len() && #[trigger] r@[i]@ == c;
                if i < jj {
                    assert(before[i]@ == c);
                } else if i > jj {
                    assert(before[i - 1]@ == c);
                }
            }
            if c == nv {
                assert(r@[jj]@ == c);
            }
            if exists|i: int| 0 <= i < before.len() && #[trigger] before[i]@ == c {
                let i = choose|i: int| 0 <= i < before.len() && #[trigger] before[i]@ == c;
                if i < jj {
                    assert(r@[i]@ == c);
                } else {
                    assert(r@[i + 1]@ == c);
                }
            }
        }
    }
}

/// The completions of `prefix`: every name in `found` and every built-in
/// command that starts with it, each once, in byte order. An empty prefix
/// completes to nothing.
pub fn complete_names(prefix: &str, found: &[String]) -> (r: Vec<String>)
    ensures
        strictly_sorted(r@),
        distinct(r@),
        forall|c: Seq<char>| #[trigger] listed(r@, c) <==> wanted(prefix@, found@, c),
{
    let mut r: Vec<String> = Vec::new();
    if prefix.is_empty() {
        return r;
    }
    let mut i: usize = 0;
    while i < found.len()
        invariant
            prefix@.len() > 0,
            i <= found@.len(),
            strictly_sorted(r@),
            distinct(r@),
            forall|c: Seq<char>| #[trigger] listed(r@, c) <==> (starts_with(c, prefix@)
                && listed(found@.subrange(0, i as int), c)),
        decreases found@.len() - i,
    {
        let ghost r0 = r@;
        if has_prefix(found[i].as_str(), prefix) {
            insert_sorted(&mut r, found[i].clone());
        }
        proof {
            let f0 = found@.subrange(0, i as int);
            let f1 = found@.subrange(0, i + 1);
            assert forall|c: Seq<char>| #[trigger] listed(r@, c) <==> (starts_with(c, prefix@)
                && listed(f1, c)) by {
                if listed(f1, c) {
                    let k = choose|k: int| 0 <= k < f1.len() && #[trigger] f1[k]@ == c;
                    if k < i {
                        assert(f0[k]@ == c);
                    }
                }
                if listed(f0, c) {
                    let k = choose|k: int| 0 <= k < f0.len() && #[trigger] f0[k]@ == c;
                    assert(f1[k]@ == c);
                }
                if c == found@[i as int]@ {
                    assert(f1[i as int]@ == c);
                }
            }
        }
        i = i + 1;
    }
    assert(found@.subrange(0, found@.len() as int) =~= found@);
    let mut b: usize = 0;
    while b < BUILTIN_COUNT
        invariant
            prefix@.len() > 0,
            b <= BUILTIN_COUNT,
            strictly_sorted(r@),
            distinct(r@),
            forall|c: Seq<char>| #[trigger] listed(r@, c) <==> (starts_with(c, prefix@)
                && (listed(found@, c) || builtin_within(b as int, c))),
        decreases BUILTIN_COUNT - b,
    {
        let ghost r0 = r@;
        let name = builtin_name(b);
        if has_prefix(name, prefix) {
            insert_sorted(&mut r, String::from_str(name));
        }
        proof {
            assert forall|c: Seq<char>| #[trigger] listed(r@, c) <==> (starts_with(c, prefix@)
                && (listed(found@, c) || builtin_within(b + 1, c))) by {
                if builtin_within(b + 1, c) {
                    let k = choose|k: int| 0 <= k < b + 1 && #[trigger] builtin(k) == c;
                    if k < b {
                        assert(builtin_within(b as int, c));
                    }
                }
                if builtin_within(b as int, c) {
                    let k = choose|k: int| 0 <= k < b && #[trigger] builtin(k) == c;
                    assert(0 <= k < b + 1 && builtin(k) == c);
                }
                if c == builtin(b as int) {
                    assert(builtin_within(b + 1, c));
                }
            }
        }
        b = b + 1;
    }
    r
}

} // verus!
