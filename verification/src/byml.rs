//! The layout of a binary BYML document, checked before `roead` reads it.
//!
//! `roead` reads a document by following the offsets it holds. It copies each
//! string into a buffer of 1024 bytes, subtracts the offsets of neighbouring
//! strings, adds offsets as 32-bit numbers, and follows containers into
//! containers without counting. `sound` says of a buffer that none of this
//! can go wrong: it is what the library asks of a document before it hands
//! it on, and `check_sound` decides it.
//!
//! `sound` also bounds the text of the document, which `roead` has written
//! into a buffer of 32 bytes for each node, and for 20000 nodes at least,
//! besides the bytes of all keys and scalars. A node's line takes, beyond
//! its key and scalar, two spaces for each level it lies below the top, and
//! at most 16 bytes more: the quotes of key and scalar, `: ` or `- `, a tag
//! of at most eight bytes with its space, and the end of the line. A string
//! is written as long as it is only if it is tame: without line ends,
//! quotes, backslashes and tabs, and not beginning with a space. Another
//! takes more: a line end is written twice and followed by the indentation
//! of the next line, which is two bytes more than that of the node; a quote,
//! a backslash, and a space or tab before a line end are written with one
//! byte more; and a string in block style has a header and its own
//! indentation. That is at most twice the level and four bytes for each
//! untame byte and each space of the string, and for three more. So a node
//! down to the eighth level with tame strings stays below 30 bytes, and what
//! nodes take beyond 30 bytes has to stay below 30000 bytes in all, which is
//! less than the two bytes that each node leaves unused, or the 40000 that
//! 20000 nodes leave.

use crate::bytes::{read_u32, u32_at, Endian};
use vstd::prelude::*;

verus! {

/// The longest document that is looked at.
pub const MAX_LEN: usize = 0x1000_0000;

/// How deep containers may lie in containers. `roead` writes the text by a
/// function that calls itself for each level and takes tens of kilobytes of
/// the stack each time: sixteen levels stay below a megabyte.
pub const MAX_NESTING: usize = 16;

/// What a document may cost: each node its price, counted once for each way
/// that leads to it.
pub const MAX_NODES: usize = 0x40_0000;

/// The longest string of a string table, with the zero byte that ends it.
pub const MAX_STRING: usize = 1024;

/// A byte that is written as it is in every style of scalar: no line end, no
/// quote, no backslash and no tab.
pub open spec fn tame(c: u8) -> bool {
    c != 0x0A && c != 0x0D && c != 0x22 && c != 0x27 && c != 0x5C && c != 0x09
}

/// The `n` bytes at `at` are tame from the `j`th on.
pub open spec fn tame_from(d: Seq<u8>, at: int, j: int, n: int) -> bool
    decreases n - j,
{
    if j >= n {
        true
    } else if at < 0 || j < 0 || at + j >= d.len() {
        false
    } else {
        tame(d[at + j]) && tame_from(d, at, j + 1, n)
    }
}

/// The `n` bytes at `at` are a tame string: all of them are tame, and the
/// first is no space.
pub open spec fn tame_string(d: Seq<u8>, at: int, n: int) -> bool {
    tame_from(d, at, 0, n) && (n > 0 ==> 0 <= at < d.len() && d[at] != 0x20)
}

/// Decides `tame_string`.
pub fn check_tame(d: &[u8], at: usize, n: usize) -> (r: bool)
    requires
        d.len() <= MAX_LEN,
        n <= MAX_LEN,
    ensures
        r == tame_string(d@, at as int, n as int),
{
    let mut j: usize = 0;
    while j < n
        invariant
            j <= n,
            n <= MAX_LEN,
            d.len() <= MAX_LEN,
            tame_from(d@, at as int, 0, n as int) == tame_from(d@, at as int, j as int, n as int),
        decreases n - j,
    {
        if at >= d.len() || j >= d.len() - at {
            return false;
        }
        let c = d[at + j];
        if c == 0x0A || c == 0x0D || c == 0x22 || c == 0x27 || c == 0x5C || c == 0x09 {
            return false;
        }
        j += 1;
    }
    n == 0 || (at < d.len() && d[at] != 0x20)
}

/// What a node costs that lies in a container walked with `fuel` levels
/// left: one, and for each byte that its line may take beyond 30 bytes, 140
/// more. A node of level `l`, the top being level 0, may take twice `l` and
/// 16 bytes.
pub open spec fn price(fuel: nat) -> nat {
    let level = MAX_NESTING - fuel;
    if level > 7 {
        (1 + 140 * (2 * level - 14)) as nat
    } else {
        1
    }
}

/// Computes `price`.
pub fn price_of(fuel: usize) -> (r: usize)
    ensures
        r == price(fuel as nat),
        1 <= r <= 20000,
{
    if fuel < MAX_NESTING - 7 {
        1 + 140 * (2 * (MAX_NESTING - fuel) - 14)
    } else {
        1
    }
}

/// The unsigned 24-bit number at `at` in the given byte order.
pub open spec fn u24_at(s: Seq<u8>, at: int, endian: Endian) -> int {
    match endian {
        Endian::Big => s[at] * 65536 + s[at + 1] * 256 + s[at + 2],
        Endian::Little => s[at + 2] * 65536 + s[at + 1] * 256 + s[at],
    }
}

/// Reads the unsigned 24-bit number at `at`.
pub fn read_u24(s: &[u8], at: usize, endian: Endian) -> (r: usize)
    requires
        at + 3 <= s.len(),
    ensures
        r == u24_at(s@, at as int, endian),
        r <= 0xFF_FFFF,
{
    let b0: usize = s[at] as usize;
    let b1: usize = s[at + 1] as usize;
    let b2: usize = s[at + 2] as usize;
    match endian {
        Endian::Big => b0 * 65536 + b1 * 256 + b2,
        Endian::Little => b2 * 65536 + b1 * 256 + b0,
    }
}

/// The byte order a document names in its first two bytes: `BY` for
/// big-endian, `YB` for little-endian.
pub open spec fn order(d: Seq<u8>) -> Option<Endian> {
    if d.len() < 2 {
        None
    } else if d[0] == 0x42 && d[1] == 0x59 {
        Some(Endian::Big)
    } else if d[0] == 0x59 && d[1] == 0x42 {
        Some(Endian::Little)
    } else {
        None
    }
}

/// String `i` of the table at `t` lies in the document: its offset is below
/// that of the next entry, by no more than the longest string, and the next
/// entry's offset lies in the document.
pub open spec fn string_fits(d: Seq<u8>, e: Endian, t: int, i: int) -> bool {
    let a = u32_at(d, t + 4 + 4 * i, e);
    let b = u32_at(d, t + 8 + 4 * i, e);
    a < b && b - a <= MAX_STRING && t + b <= d.len()
}

/// How many of the `n` bytes at `at`, from the `j`th on, are untame or a
/// space.
pub open spec fn hot_from(d: Seq<u8>, at: int, j: int, n: int) -> nat
    decreases n - j,
{
    if j >= n || at < 0 || j < 0 || at + j >= d.len() {
        0
    } else if !tame(d[at + j]) || d[at + j] == 0x20 {
        1 + hot_from(d, at, j + 1, n)
    } else {
        hot_from(d, at, j + 1, n)
    }
}

/// For how many times twice its level and four bytes a string may be
/// written longer than it is: not at all if it is tame, else for each of its
/// bytes that is untame or a space, and for three more.
pub open spec fn heat(d: Seq<u8>, at: int, n: int) -> nat {
    if tame_string(d, at, n) {
        0
    } else {
        hot_from(d, at, 0, n) + 3
    }
}

/// The heat of string `i` of the table at `t`.
pub open spec fn string_heat(d: Seq<u8>, e: Endian, t: int, i: int) -> nat {
    let a = u32_at(d, t + 4 + 4 * i, e);
    let b = u32_at(d, t + 8 + 4 * i, e);
    heat(d, t + a, b - a)
}

/// Computes `heat`.
pub fn heat_of(d: &[u8], at: usize, n: usize) -> (r: usize)
    requires
        d.len() <= MAX_LEN,
        n <= MAX_STRING,
    ensures
        r == heat(d@, at as int, n as int),
        r <= MAX_STRING + 3,
{
    if check_tame(d, at, n) {
        return 0;
    }
    let mut count: usize = 0;
    let mut j: usize = 0;
    while j < n
        invariant
            j <= n,
            count <= j,
            n <= MAX_STRING,
            d.len() <= MAX_LEN,
            !tame_string(d@, at as int, n as int),
            hot_from(d@, at as int, 0, n as int) == count + hot_from(
                d@,
                at as int,
                j as int,
                n as int,
            ),
        decreases n - j,
    {
        if at >= d.len() || j >= d.len() - at {
            return count + 3;
        }
        let c = d[at + j];
        if c == 0x0A || c == 0x0D || c == 0x22 || c == 0x27 || c == 0x5C || c == 0x09 || c == 0x20 {
            count += 1;
        }
        j += 1;
    }
    count + 3
}

/// Computes `string_heat` for a string of a sound table.
pub fn string_heat_of(d: &[u8], e: Endian, t: usize, i: usize) -> (r: usize)
    requires
        d.len() <= MAX_LEN,
        t != 0,
        table_ok(d@, e, t as int),
        i < table_len(d@, e, t as int),
    ensures
        r == string_heat(d@, e, t as int, i as int),
        r <= MAX_STRING + 3,
{
    assert(string_fits(d@, e, t as int, i as int));
    assert(u24_at(d@, t + 1, e) <= 0xFF_FFFF) by {
        assert(t + 8 + 4 * u24_at(d@, t + 1, e) <= d.len());
    }
    let a = read_u32(d, t + 4 + 4 * i, e);
    let b = read_u32(d, t + 8 + 4 * i, e);
    heat_of(d, t + a as usize, (b - a) as usize)
}

/// How many strings the table at `t` holds; none where `t` is 0, which
/// stands for no table.
pub open spec fn table_len(d: Seq<u8>, e: Endian, t: int) -> int {
    if t == 0 {
        0
    } else {
        u24_at(d, t + 1, e)
    }
}

/// The string table at `t` is sound: there is none, or it is a string table
/// whose offsets all lie in the document and whose strings all fit.
pub open spec fn table_ok(d: Seq<u8>, e: Endian, t: int) -> bool {
    t == 0 || {
        &&& 0 < t
        &&& t + 4 <= d.len()
        &&& d[t] == 0xC2
        &&& t + 8 + 4 * u24_at(d, t + 1, e) <= d.len()
        &&& forall|i: int| 0 <= i < u24_at(d, t + 1, e) ==> #[trigger] string_fits(d, e, t, i)
    }
}

/// Decides `table_ok`, and counts the strings.
pub fn check_table(d: &[u8], e: Endian, t: usize) -> (r: Option<usize>)
    requires
        d.len() <= MAX_LEN,
    ensures
        match r {
            Some(n) => table_ok(d@, e, t as int) && n == table_len(d@, e, t as int) && n
                <= 0xFF_FFFF,
            None => !table_ok(d@, e, t as int),
        },
{
    if t == 0 {
        return Some(0);
    }
    if d.len() < 4 || t > d.len() - 4 || d[t] != 0xC2 {
        return None;
    }
    let n = read_u24(d, t + 1, e);
    if 8 + 4 * n > d.len() - t {
        return None;
    }
    let mut i: usize = 0;
    while i < n
        invariant
            i <= n,
            t != 0,
            n == u24_at(d@, t + 1, e),
            n <= 0xFF_FFFF,
            d.len() <= MAX_LEN,
            t + 8 + 4 * n <= d.len(),
            forall|k: int| 0 <= k < i ==> #[trigger] string_fits(d@, e, t as int, k),
        decreases n - i,
    {
        let a = read_u32(d, t + 4 + 4 * i, e);
        let b = read_u32(d, t + 8 + 4 * i, e);
        if a >= b || b - a > 1024 || b as u64 > (d.len() - t) as u64 {
            assert(!string_fits(d@, e, t as int, i as int));
            return None;
        }
        i += 1;
    }
    Some(n)
}

/// A node of this type holds nodes: an array, a map, or one of the two maps
/// keyed by hash.
pub open spec fn container(kind: u8) -> bool {
    kind == 0xC0 || kind == 0xC1 || kind == 0x20 || kind == 0x21
}

/// `n` rounded up to a multiple of four.
pub open spec fn align4(n: int) -> int {
    (n + 3) / 4 * 4
}

/// How many bytes a container of this type with `n` children takes, with its
/// header: an array has a type byte and a word for each child, a map two
/// words, a map by hash two words and a type byte, a map by hash of values
/// three words and a type byte.
pub open spec fn span(kind: u8, n: int) -> int {
    if kind == 0xC0 {
        4 + align4(n) + 4 * n
    } else if kind == 0xC1 {
        4 + 8 * n
    } else if kind == 0x20 {
        4 + 9 * n
    } else {
        4 + 13 * n
    }
}

/// Where the type byte of child `i` stands.
pub open spec fn type_slot(kind: u8, at: int, n: int, i: int) -> int {
    if kind == 0xC0 {
        at + 4 + i
    } else if kind == 0xC1 {
        at + 4 + 8 * i + 3
    } else if kind == 0x20 {
        at + 4 + 8 * n + i
    } else {
        at + 4 + 12 * n + i
    }
}

/// Where the word of child `i` stands: its value, or the offset of what it
/// holds.
pub open spec fn value_slot(kind: u8, at: int, n: int, i: int) -> int {
    if kind == 0xC0 {
        at + 4 + align4(n) + 4 * i
    } else if kind == 0x21 {
        at + 4 + 12 * i
    } else {
        at + 4 + 8 * i + 4
    }
}

/// A node that holds no nodes can be read: a string is one of the table's,
/// data and numbers of 64 bits lie in the document where the word says, and
/// the type is one of those that have a value.
pub open spec fn leaf_ok(d: Seq<u8>, e: Endian, kind: u8, v: int, strings: int) -> bool {
    if kind == 0xA0 {
        v < strings
    } else if kind == 0xA1 {
        v + 4 <= d.len() && v + 4 + u32_at(d, v, e) <= d.len()
    } else if kind == 0xA2 {
        v + 8 <= d.len() && v + 8 + u32_at(d, v, e) <= d.len()
    } else if kind == 0xD4 || kind == 0xD5 || kind == 0xD6 {
        v + 8 <= d.len()
    } else {
        kind == 0xD0 || kind == 0xD1 || kind == 0xD2 || kind == 0xD3 || kind == 0xFF
    }
}

/// Decides `leaf_ok`.
pub fn check_leaf(d: &[u8], e: Endian, kind: u8, v: u32, strings: usize) -> (r: bool)
    requires
        d.len() <= MAX_LEN,
    ensures
        r == leaf_ok(d@, e, kind, v as int, strings as int),
{
    let len: u64 = d.len() as u64;
    let at: u64 = v as u64;
    if kind == 0xA0 {
        at < strings as u64
    } else if kind == 0xA1 {
        at + 4 <= len && at + 4 + read_u32(d, v as usize, e) as u64 <= len
    } else if kind == 0xA2 {
        at + 8 <= len && at + 8 + read_u32(d, v as usize, e) as u64 <= len
    } else if kind == 0xD4 || kind == 0xD5 || kind == 0xD6 {
        at + 8 <= len
    } else {
        kind == 0xD0 || kind == 0xD1 || kind == 0xD2 || kind == 0xD3 || kind == 0xFF
    }
}

/// Twice the level, and four, of what lies in a container walked with `fuel`
/// levels left.
pub open spec fn unit(fuel: nat) -> nat {
    (2 * (MAX_NESTING - fuel) + 4) as nat
}

/// What the strings of child `i` of the container at `at` cost beyond its
/// price: 140 for each byte that its key, if it is the child of a map, and
/// its value, if it is a string, may be written longer than they are.
pub open spec fn toll(
    d: Seq<u8>,
    e: Endian,
    keys_at: int,
    strings_at: int,
    at: int,
    i: int,
    fuel: nat,
) -> nat {
    let kind = d[at];
    let n = u24_at(d, at + 1, e);
    let child = d[type_slot(kind, at, n, i)];
    let v = u32_at(d, value_slot(kind, at, n, i), e);
    let of_key = if kind == 0xC1 {
        string_heat(d, e, keys_at, u24_at(d, at + 4 + 8 * i, e))
    } else {
        0
    };
    let of_value = if child == 0xA0 && v < table_len(d, e, strings_at) {
        string_heat(d, e, strings_at, v)
    } else {
        0
    };
    140 * unit(fuel) * (of_key + of_value)
}

/// Walks the container at `at` and all it holds, with `fuel` levels and
/// `budget` to spend, each node at its price and toll: what is left of the
/// budget, or nothing where the walk is refused. It is refused where the
/// levels or the budget run out, where `at` holds no container that lies in
/// the document, and where a child is refused. The string tables stand at
/// `keys_at` and `strings_at`.
pub open spec fn walk(
    d: Seq<u8>,
    e: Endian,
    keys_at: int,
    strings_at: int,
    at: int,
    fuel: nat,
    budget: nat,
) -> Option<nat>
    decreases fuel, 1nat, 0nat,
{
    if fuel == 0 || budget < price(fuel) || at < 0 || at + 4 > d.len() || !container(d[at]) || at
        + span(d[at], u24_at(d, at + 1, e)) > d.len() {
        None
    } else {
        walk_from(d, e, keys_at, strings_at, at, 0, fuel, (budget - price(fuel)) as nat)
    }
}

/// Walks the children of the container at `at` from child `i` on. A child
/// costs its toll; one that is a container is walked one level down;
/// another costs its price and has to be readable. A key of a map has to be
/// one of the key table's.
pub open spec fn walk_from(
    d: Seq<u8>,
    e: Endian,
    keys_at: int,
    strings_at: int,
    at: int,
    i: int,
    fuel: nat,
    budget: nat,
) -> Option<nat>
    decreases fuel, 0nat, u24_at(d, at + 1, e) - i,
{
    let kind = d[at];
    let n = u24_at(d, at + 1, e);
    if i < 0 || i >= n {
        Some(budget)
    } else if fuel == 0 {
        None
    } else {
        let child = d[type_slot(kind, at, n, i)];
        let v = u32_at(d, value_slot(kind, at, n, i), e);
        let due = toll(d, e, keys_at, strings_at, at, i, fuel);
        if kind == 0xC1 && u24_at(d, at + 4 + 8 * i, e) >= table_len(d, e, keys_at) {
            None
        } else if budget < due {
            None
        } else if container(child) {
            match walk(d, e, keys_at, strings_at, v, (fuel - 1) as nat, (budget - due) as nat) {
                None => None,
                Some(left) => walk_from(d, e, keys_at, strings_at, at, i + 1, fuel, left),
            }
        } else if budget - due >= price(fuel) && leaf_ok(
            d,
            e,
            child,
            v,
            table_len(d, e, strings_at),
        ) {
            walk_from(
                d,
                e,
                keys_at,
                strings_at,
                at,
                i + 1,
                fuel,
                (budget - due - price(fuel)) as nat,
            )
        } else {
            None
        }
    }
}

/// What `walk` gives, as a machine number.
pub open spec fn left_of(r: Option<usize>) -> Option<nat> {
    match r {
        Some(n) => Some(n as nat),
        None => None,
    }
}

/// Computes the toll of child `i`, whose type is `child` and whose word is
/// `v`, where its key is one of the key table's.
fn toll_of(
    d: &[u8],
    e: Endian,
    keys_at: usize,
    strings_at: usize,
    at: usize,
    i: usize,
    fuel: usize,
    child: u8,
    v: u32,
) -> (r: usize)
    requires
        d.len() <= MAX_LEN,
        table_ok(d@, e, keys_at as int),
        table_ok(d@, e, strings_at as int),
        0 < fuel <= MAX_NESTING,
        at + 4 <= d.len(),
        container(d@[at as int]),
        i < u24_at(d@, at + 1, e),
        at + span(d@[at as int], u24_at(d@, at + 1, e)) <= d.len(),
        child == d@[type_slot(d@[at as int], at as int, u24_at(d@, at + 1, e), i as int)],
        v == u32_at(
            d@,
            value_slot(d@[at as int], at as int, u24_at(d@, at + 1, e), i as int),
            e,
        ),
        d@[at as int] == 0xC1 ==> u24_at(d@, at + 4 + 8 * i, e) < table_len(d@, e, keys_at as int),
    ensures
        r == toll(d@, e, keys_at as int, strings_at as int, at as int, i as int, fuel as nat),
        r <= 0x100_0000,
{
    let of_key: usize = if d[at] == 0xC1 {
        let index = read_u24(d, at + 4 + 8 * i, e);
        string_heat_of(d, e, keys_at, index)
    } else {
        0
    };
    let strings: usize = if strings_at == 0 {
        0
    } else {
        read_u24(d, strings_at + 1, e)
    };
    let of_value: usize = if child == 0xA0 && (v as usize) < strings {
        string_heat_of(d, e, strings_at, v as usize)
    } else {
        0
    };
    let per: usize = 2 * (MAX_NESTING - fuel) + 4;
    assert(per == unit(fuel as nat));
    assert(140 * per * (of_key + of_value) <= 140 * 36 * 2054) by (nonlinear_arith)
        requires
            per <= 36,
            of_key + of_value <= 2054,
    ;
    140 * per * (of_key + of_value)
}

/// Decides `walk`.
pub fn check_walk(
    d: &[u8],
    e: Endian,
    keys_at: usize,
    strings_at: usize,
    at: usize,
    fuel: usize,
    budget: usize,
) -> (r: Option<usize>)
    requires
        d.len() <= MAX_LEN,
        fuel <= MAX_NESTING,
        table_ok(d@, e, keys_at as int),
        table_ok(d@, e, strings_at as int),
    ensures
        left_of(r) == walk(
            d@,
            e,
            keys_at as int,
            strings_at as int,
            at as int,
            fuel as nat,
            budget as nat,
        ),
    decreases fuel,
{
    let cost = price_of(fuel);
    if fuel == 0 || budget < cost || d.len() < 4 || at > d.len() - 4 {
        return None;
    }
    let kind = d[at];
    if !(kind == 0xC0 || kind == 0xC1 || kind == 0x20 || kind == 0x21) {
        return None;
    }
    let n = read_u24(d, at + 1, e);
    let padded: usize = (n + 3) / 4 * 4;
    let size: usize = if kind == 0xC0 {
        4 + padded + 4 * n
    } else if kind == 0xC1 {
        4 + 8 * n
    } else if kind == 0x20 {
        4 + 9 * n
    } else {
        4 + 13 * n
    };
    assert(size == span(kind, n as int));
    if size > d.len() - at {
        return None;
    }
    let keys: usize = if keys_at == 0 {
        0
    } else {
        read_u24(d, keys_at + 1, e)
    };
    let strings: usize = if strings_at == 0 {
        0
    } else {
        read_u24(d, strings_at + 1, e)
    };
    let mut left: usize = budget - cost;
    let mut i: usize = 0;
    let ghost whole = walk(
        d@,
        e,
        keys_at as int,
        strings_at as int,
        at as int,
        fuel as nat,
        budget as nat,
    );
    while i < n
        invariant
            i <= n,
            whole == walk(
                d@,
                e,
                keys_at as int,
                strings_at as int,
                at as int,
                fuel as nat,
                budget as nat,
            ),
            n == u24_at(d@, at + 1, e),
            n <= 0xFF_FFFF,
            kind == d@[at as int],
            container(kind),
            padded == align4(n as int),
            0 < fuel <= MAX_NESTING,
            cost == price(fuel as nat),
            keys == table_len(d@, e, keys_at as int),
            strings == table_len(d@, e, strings_at as int),
            table_ok(d@, e, keys_at as int),
            table_ok(d@, e, strings_at as int),
            d.len() <= MAX_LEN,
            at + 4 <= d.len(),
            at + span(kind, n as int) <= d.len(),
            whole == walk_from(
                d@,
                e,
                keys_at as int,
                strings_at as int,
                at as int,
                i as int,
                fuel as nat,
                left as nat,
            ),
        decreases n - i,
    {
        let type_at: usize = if kind == 0xC0 {
            at + 4 + i
        } else if kind == 0xC1 {
            at + 4 + 8 * i + 3
        } else if kind == 0x20 {
            at + 4 + 8 * n + i
        } else {
            at + 4 + 12 * n + i
        };
        let value_at: usize = if kind == 0xC0 {
            at + 4 + padded + 4 * i
        } else if kind == 0x21 {
            at + 4 + 12 * i
        } else {
            at + 4 + 8 * i + 4
        };
        assert(type_at == type_slot(kind, at as int, n as int, i as int));
        assert(value_at == value_slot(kind, at as int, n as int, i as int));
        let child = d[type_at];
        let v = read_u32(d, value_at, e);
        if kind == 0xC1 && read_u24(d, at + 4 + 8 * i, e) >= keys {
            return None;
        }
        let due = toll_of(d, e, keys_at, strings_at, at, i, fuel, child, v);
        if left < due {
            return None;
        }
        if child == 0xC0 || child == 0xC1 || child == 0x20 || child == 0x21 {
            match check_walk(d, e, keys_at, strings_at, v as usize, fuel - 1, left - due) {
                Some(rest) => {
                    left = rest;
                },
                None => {
                    return None;
                },
            }
        } else if left - due >= cost && check_leaf(d, e, child, v, strings) {
            left = left - due - cost;
        } else {
            return None;
        }
        i += 1;
    }
    Some(left)
}

/// A document is sound: it is no longer than is looked at, names its byte
/// order, has a whole header, its two string tables are sound, and it has no
/// root or the walk from its root is not refused.
pub open spec fn sound(d: Seq<u8>) -> bool {
    &&& 0x10 <= d.len() <= MAX_LEN
    &&& order(d) matches Some(e) && {
        let keys_at = u32_at(d, 4, e);
        let strings_at = u32_at(d, 8, e);
        let root = u32_at(d, 12, e);
        &&& table_ok(d, e, keys_at)
        &&& table_ok(d, e, strings_at)
        &&& (root == 0 || walk(
            d,
            e,
            keys_at,
            strings_at,
            root,
            MAX_NESTING as nat,
            MAX_NODES as nat,
        ) is Some)
    }
}

/// Decides `sound`.
pub fn check_sound(d: &[u8]) -> (r: bool)
    ensures
        r == sound(d@),
{
    if d.len() < 0x10 || d.len() > MAX_LEN {
        return false;
    }
    let e = if d[0] == 0x42 && d[1] == 0x59 {
        Endian::Big
    } else if d[0] == 0x59 && d[1] == 0x42 {
        Endian::Little
    } else {
        return false;
    };
    let keys_at = read_u32(d, 4, e);
    let strings_at = read_u32(d, 8, e);
    let root = read_u32(d, 12, e);
    if check_table(d, e, keys_at as usize).is_none() {
        return false;
    }
    if check_table(d, e, strings_at as usize).is_none() {
        return false;
    }
    if root == 0 {
        return true;
    }
    check_walk(
        d,
        e,
        keys_at as usize,
        strings_at as usize,
        root as usize,
        MAX_NESTING,
        MAX_NODES,
    ).is_some()
}

} // verus!
