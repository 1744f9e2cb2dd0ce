//! The layout of a binary AAMP parameter archive, checked before `roead`
//! reads it.
//!
//! `roead` reads an archive by following the offsets it holds: from a list
//! to its lists and objects, from an object to its parameters, from a
//! parameter to its value. It follows lists into lists without counting,
//! copies a string into a buffer of 0x256 bytes, takes the bytes of each
//! string for text without a look, and makes room for a buffer of numbers
//! by the length that the file states. `sound` says of a buffer that none of
//! this can go wrong: it is what the library asks of an archive before it
//! hands it on, and `check_sound` decides it.
//!
//! `sound` also bounds the text of the archive, which `roead` has written
//! into a buffer of 32 bytes for each node of the text, and for 10000 nodes
//! at least, besides the bytes of all keys and scalars. A list is three
//! nodes of text, an object one, a parameter one and one more for each
//! number of a vector, curve or buffer. A line takes, beyond its key and
//! scalar, two spaces for each level it lies below the top, and at most 22
//! bytes more: the quotes of the key, `: `, a tag of at most 14 bytes with
//! its space, two brackets or quotes, and the end of the line; a number in
//! brackets takes three. What stands in a list that lies `n` lists below the
//! root lies at most `2 * n + 3` levels below the top. So a node of the root
//! list stays below 30 bytes, and what deeper nodes take beyond 30 bytes has
//! to stay below 15000 bytes in all, which is less than the two bytes that
//! each node leaves unused, or the 20000 that 10000 nodes leave. A string
//! that is not tame is written longer than it is, at most by twice its level
//! and four bytes for each of its bytes that is untame or a space, and for
//! three more: that counts too.
//!
//! The names of the lists, objects and parameters are given as hashes; the
//! text names them from a table. `gathered` lists the hashes in the order of
//! the walk, for the names to be looked at before the text is made.

use crate::byml::{check_tame, heat, heat_of, read_u24, tame_string, u24_at};
use crate::bytes::{is_utf8, read_u16, read_u32, u16_le, u32_le, Endian};
use vstd::prelude::*;
use vstd::slice::slice_subrange;

verus! {

/// The longest archive that is looked at.
pub const MAX_LEN: usize = 0x1000_0000;

/// How deep lists may lie in lists, the root list counted.
pub const MAX_NESTING: usize = 9;

/// What an archive may cost: each list, object and parameter its price,
/// counted once for each way that leads to it.
pub const MAX_NODES: usize = 0x40_0000;

/// A string that is referred to ends before this many bytes of it were
/// read.
pub const MAX_STRING: usize = 0x255;

/// How long the text at `at + j` goes on: up to a zero byte that comes
/// before `limit` bytes were read, or, where `fixed` says that the text may
/// fill its field, up to `limit` bytes. Nothing where the archive ends
/// first, or the limit is reached and the text may not fill its field.
pub open spec fn run_end(d: Seq<u8>, at: int, j: int, limit: int, fixed: bool) -> Option<int>
    decreases limit - j,
{
    if j >= limit {
        if fixed {
            Some(j)
        } else {
            None
        }
    } else if at < 0 || j < 0 || at + j >= d.len() {
        None
    } else if d[at + j] == 0 {
        Some(j)
    } else {
        run_end(d, at, j + 1, limit, fixed)
    }
}

/// The bytes at `at` are text that can be taken: the text ends in time and
/// is valid UTF-8.
pub open spec fn run_ok(d: Seq<u8>, at: int, limit: int, fixed: bool) -> bool {
    match run_end(d, at, 0, limit, fixed) {
        Some(n) => 0 <= at && at + n <= d.len() && vstd::utf8::valid_utf8(d.subrange(at, at + n)),
        None => false,
    }
}

/// What `run_end` gives, as a machine number.
pub open spec fn end_of(r: Option<usize>) -> Option<int> {
    match r {
        Some(n) => Some(n as int),
        None => None,
    }
}

/// Computes `run_end` from the start of the text.
pub fn find_end(d: &[u8], at: usize, limit: usize, fixed: bool) -> (r: Option<usize>)
    requires
        d.len() <= MAX_LEN,
        0 < limit <= 0x1000,
    ensures
        end_of(r) == run_end(d@, at as int, 0, limit as int, fixed),
        r matches Some(n) ==> n <= limit && at + n <= d.len(),
{
    if at >= d.len() {
        return None;
    }
    let mut j: usize = 0;
    while j < limit
        invariant
            j <= limit,
            limit <= 0x1000,
            d.len() <= MAX_LEN,
            at + j <= d.len(),
            run_end(d@, at as int, 0, limit as int, fixed) == run_end(
                d@,
                at as int,
                j as int,
                limit as int,
                fixed,
            ),
        decreases limit - j,
    {
        if at >= d.len() || j >= d.len() - at {
            return None;
        }
        if d[at + j] == 0 {
            return Some(j);
        }
        j += 1;
    }
    if fixed {
        Some(j)
    } else {
        None
    }
}

/// Decides `run_ok`.
pub fn check_run(d: &[u8], at: usize, limit: usize, fixed: bool) -> (r: bool)
    requires
        d.len() <= MAX_LEN,
        0 < limit <= 0x1000,
    ensures
        r == run_ok(d@, at as int, limit as int, fixed),
{
    match find_end(d, at, limit, fixed) {
        Some(n) => is_utf8(slice_subrange(d, at, at + n)),
        None => false,
    }
}

/// How far a list lies below the root that is walked with `fuel` levels
/// left.
pub open spec fn depth(fuel: nat) -> int {
    MAX_NESTING - fuel
}

/// What an object or a parameter costs in a list walked with `fuel` levels
/// left: one, and for each byte that its line may take beyond 30 bytes, 280
/// more.
pub open spec fn price(fuel: nat) -> nat {
    if depth(fuel) > 0 {
        (1 + 280 * (4 * depth(fuel) - 2)) as nat
    } else {
        1
    }
}

/// What a list costs that is walked with `fuel` levels left: as much as
/// three nodes in it.
pub open spec fn list_price(fuel: nat) -> nat {
    3 * price(fuel)
}

/// Computes `price`.
pub fn price_of(fuel: usize) -> (r: usize)
    ensures
        r == price(fuel as nat),
        1 <= r <= 20000,
{
    if fuel < MAX_NESTING {
        1 + 280 * (4 * (MAX_NESTING - fuel) - 2)
    } else {
        1
    }
}

/// Where the value of the parameter at `p` stands.
pub open spec fn value_at(d: Seq<u8>, p: int) -> int {
    u24_at(d, p + 4, Endian::Little) * 4 + p
}

/// The parameter at `p` can be read: its eight bytes lie in the archive, its
/// type is one of the twenty-one, a string is text that can be taken, and a
/// buffer lies in the archive with the length that stands before it. The
/// length of a buffer of floats is read four bytes before the parameter
/// itself.
pub open spec fn param_ok(d: Seq<u8>, p: int) -> bool {
    &&& 4 <= p
    &&& p + 8 <= d.len()
    &&& {
        let kind = d[p + 7];
        let v = value_at(d, p);
        if kind == 20 {
            run_ok(d, v, MAX_STRING as int, false)
        } else if kind == 7 {
            run_ok(d, v, 32, true)
        } else if kind == 8 {
            run_ok(d, v, 64, true)
        } else if kind == 15 {
            run_ok(d, v, 256, true)
        } else if kind == 13 || kind == 18 {
            v <= d.len() && v + 4 * u32_le(d, v - 4) <= d.len()
        } else if kind == 19 {
            v <= d.len() && v + u32_le(d, v - 4) <= d.len()
        } else if kind == 14 {
            v <= d.len() && v + 4 * u32_le(d, p - 4) <= d.len()
        } else {
            kind < 20
        }
    }
}

/// Decides `param_ok`.
pub fn check_param(d: &[u8], p: usize) -> (r: bool)
    requires
        d.len() <= MAX_LEN,
    ensures
        r == param_ok(d@, p as int),
{
    if p < 4 || d.len() < 8 || p > d.len() - 8 {
        return false;
    }
    let kind = d[p + 7];
    let v: usize = read_u24(d, p + 4, Endian::Little) * 4 + p;
    let len: u64 = d.len() as u64;
    if kind == 20 {
        check_run(d, v, MAX_STRING, false)
    } else if kind == 7 {
        check_run(d, v, 32, true)
    } else if kind == 8 {
        check_run(d, v, 64, true)
    } else if kind == 15 {
        check_run(d, v, 256, true)
    } else if kind == 13 || kind == 18 {
        v <= d.len() && v as u64 + 4 * (read_u32(d, v - 4, Endian::Little) as u64) <= len
    } else if kind == 19 {
        v <= d.len() && v as u64 + read_u32(d, v - 4, Endian::Little) as u64 <= len
    } else if kind == 14 {
        v <= d.len() && v as u64 + 4 * (read_u32(d, p - 4, Endian::Little) as u64) <= len
    } else {
        kind < 20
    }
}

/// Twice the level, and four, of what stands in a list walked with `fuel`
/// levels left.
pub open spec fn unit(fuel: nat) -> nat {
    if depth(fuel) > 0 {
        (4 * depth(fuel) + 10) as nat
    } else {
        10
    }
}

/// Computes `unit`.
pub fn unit_of(fuel: usize) -> (r: usize)
    ensures
        r == unit(fuel as nat),
        r <= 50,
{
    if fuel < MAX_NESTING {
        4 * (MAX_NESTING - fuel) + 10
    } else {
        10
    }
}

/// How long the text of a string is within its field of `limit` bytes.
pub open spec fn text_heat(d: Seq<u8>, at: int, limit: int, fixed: bool) -> nat {
    match run_end(d, at, 0, limit, fixed) {
        Some(n) => heat(d, at, n),
        None => 0,
    }
}

/// For how many times its unit the parameter at `p` may be written longer
/// than it is: the heat of its string, if it is one.
pub open spec fn param_heat(d: Seq<u8>, p: int) -> nat {
    let kind = d[p + 7];
    let v = value_at(d, p);
    if kind == 20 {
        text_heat(d, v, MAX_STRING as int, false)
    } else if kind == 7 {
        text_heat(d, v, 32, true)
    } else if kind == 8 {
        text_heat(d, v, 64, true)
    } else if kind == 15 {
        text_heat(d, v, 256, true)
    } else {
        0
    }
}

fn text_heat_of(d: &[u8], at: usize, limit: usize, fixed: bool) -> (r: usize)
    requires
        d.len() <= MAX_LEN,
        0 < limit <= 0x400,
    ensures
        r == text_heat(d@, at as int, limit as int, fixed),
        r <= 0x403,
{
    match find_end(d, at, limit, fixed) {
        Some(n) => heat_of(d, at, n),
        None => 0,
    }
}

/// Computes `param_heat` for a parameter whose eight bytes lie in the
/// archive.
pub fn param_heat_of(d: &[u8], p: usize) -> (r: usize)
    requires
        d.len() <= MAX_LEN,
        p + 8 <= d.len(),
    ensures
        r == param_heat(d@, p as int),
        r <= 0x403,
{
    let kind = d[p + 7];
    let v: usize = read_u24(d, p + 4, Endian::Little) * 4 + p;
    if kind == 20 {
        text_heat_of(d, v, MAX_STRING, false)
    } else if kind == 7 {
        text_heat_of(d, v, 32, true)
    } else if kind == 8 {
        text_heat_of(d, v, 64, true)
    } else if kind == 15 {
        text_heat_of(d, v, 256, true)
    } else {
        0
    }
}

/// Where parameter `k` of the object at `o` stands.
pub open spec fn param_at(d: Seq<u8>, o: int, k: int) -> int {
    u16_le(d, o + 4) * 4 + o + 8 * k
}

/// Goes through the parameters of the object at `o` from parameter `k` on,
/// with `budget` to spend, each parameter costing `cost`, and 280 for each
/// byte that its string may be written longer than it is, at `per` bytes for
/// each of its heat: what is left of the budget, or nothing where a
/// parameter cannot be read or the budget runs out.
pub open spec fn params_from(d: Seq<u8>, o: int, k: int, cost: nat, per: nat, budget: nat) -> Option<
    nat,
>
    decreases u16_le(d, o + 6) - k,
{
    if k < 0 || k >= u16_le(d, o + 6) {
        Some(budget)
    } else if param_ok(d, param_at(d, o, k)) && budget >= cost + 280 * per * param_heat(
        d,
        param_at(d, o, k),
    ) {
        params_from(
            d,
            o,
            k + 1,
            cost,
            per,
            (budget - cost - 280 * per * param_heat(d, param_at(d, o, k))) as nat,
        )
    } else {
        None
    }
}

/// Goes through the object at `o`: its eight bytes lie in the archive, it
/// costs `cost`, and its parameters cost what they cost.
pub open spec fn walk_object(d: Seq<u8>, o: int, cost: nat, per: nat, budget: nat) -> Option<nat> {
    if budget < cost || o < 0 || o + 8 > d.len() {
        None
    } else {
        params_from(d, o, 0, cost, per, (budget - cost) as nat)
    }
}

/// What a walk gives, as a machine number.
pub open spec fn left_of(r: Option<usize>) -> Option<nat> {
    match r {
        Some(n) => Some(n as nat),
        None => None,
    }
}

/// Decides `walk_object`.
pub fn check_object(d: &[u8], o: usize, cost: usize, per: usize, budget: usize) -> (r: Option<
    usize,
>)
    requires
        d.len() <= MAX_LEN,
        cost <= 20000,
        per <= 50,
    ensures
        left_of(r) == walk_object(d@, o as int, cost as nat, per as nat, budget as nat),
{
    if budget < cost || d.len() < 8 || o > d.len() - 8 {
        return None;
    }
    let first: usize = read_u16(d, o + 4, Endian::Little) as usize * 4 + o;
    let n: usize = read_u16(d, o + 6, Endian::Little) as usize;
    let mut left: usize = budget - cost;
    let mut k: usize = 0;
    while k < n
        invariant
            k <= n,
            cost <= 20000,
            per <= 50,
            n == u16_le(d@, o + 6),
            first == u16_le(d@, o + 4) * 4 + o,
            d.len() <= MAX_LEN,
            o + 8 <= d.len(),
            walk_object(d@, o as int, cost as nat, per as nat, budget as nat) == params_from(
                d@,
                o as int,
                k as int,
                cost as nat,
                per as nat,
                left as nat,
            ),
        decreases n - k,
    {
        assert(first + 8 * k == param_at(d@, o as int, k as int));
        if !check_param(d, first + 8 * k) {
            return None;
        }
        let warm = param_heat_of(d, first + 8 * k);
        assert(280 * per * warm <= 280 * 50 * 0x403) by (nonlinear_arith)
            requires
                per <= 50,
                warm <= 0x403,
        ;
        let due: usize = cost + 280 * per * warm;
        if left < due {
            return None;
        }
        left = left - due;
        k += 1;
    }
    Some(left)
}

/// Where object `j` of the list at `at` stands.
pub open spec fn object_at(d: Seq<u8>, at: int, j: int) -> int {
    u16_le(d, at + 8) * 4 + at + 8 * j
}

/// Where list `i` of the list at `at` stands.
pub open spec fn list_at(d: Seq<u8>, at: int, i: int) -> int {
    u16_le(d, at + 4) * 4 + at + 12 * i
}

/// Goes through the objects of the list at `at` from object `j` on.
pub open spec fn objects_from(d: Seq<u8>, at: int, j: int, cost: nat, per: nat, budget: nat) -> Option<
    nat,
>
    decreases u16_le(d, at + 10) - j,
{
    if j < 0 || j >= u16_le(d, at + 10) {
        Some(budget)
    } else {
        match walk_object(d, object_at(d, at, j), cost, per, budget) {
            None => None,
            Some(left) => objects_from(d, at, j + 1, cost, per, left),
        }
    }
}

/// Walks the list at `at` and all it holds, with `fuel` levels and `budget`
/// to spend, the list, its objects and their parameters at the price of its
/// depth: what is left of the budget, or nothing where the walk is refused.
/// It is refused where the levels or the budget run out, where the twelve
/// bytes of the list do not lie in the archive, and where one of its lists
/// or objects is refused.
pub open spec fn walk_list(d: Seq<u8>, at: int, fuel: nat, budget: nat) -> Option<nat>
    decreases fuel, 1nat, 0nat,
{
    if fuel == 0 || budget < list_price(fuel) || at < 0 || at + 12 > d.len() {
        None
    } else {
        match lists_from(d, at, 0, fuel, (budget - list_price(fuel)) as nat) {
            None => None,
            Some(left) => objects_from(d, at, 0, price(fuel), unit(fuel), left),
        }
    }
}

/// Walks the lists of the list at `at` from list `i` on, each one level
/// down.
pub open spec fn lists_from(d: Seq<u8>, at: int, i: int, fuel: nat, budget: nat) -> Option<nat>
    decreases fuel, 0nat, u16_le(d, at + 6) - i,
{
    if i < 0 || i >= u16_le(d, at + 6) {
        Some(budget)
    } else if fuel == 0 {
        None
    } else {
        match walk_list(d, list_at(d, at, i), (fuel - 1) as nat, budget) {
            None => None,
            Some(left) => lists_from(d, at, i + 1, fuel, left),
        }
    }
}

/// Decides `walk_list`.
pub fn check_list(d: &[u8], at: usize, fuel: usize, budget: usize) -> (r: Option<usize>)
    requires
        d.len() <= MAX_LEN,
    ensures
        left_of(r) == walk_list(d@, at as int, fuel as nat, budget as nat),
    decreases fuel,
{
    let cost = price_of(fuel);
    let per = unit_of(fuel);
    if fuel == 0 || budget < 3 * cost || d.len() < 12 || at > d.len() - 12 {
        return None;
    }
    let ghost whole = walk_list(d@, at as int, fuel as nat, budget as nat);
    let lists: usize = read_u16(d, at + 4, Endian::Little) as usize * 4 + at;
    let list_count: usize = read_u16(d, at + 6, Endian::Little) as usize;
    let objects: usize = read_u16(d, at + 8, Endian::Little) as usize * 4 + at;
    let object_count: usize = read_u16(d, at + 10, Endian::Little) as usize;
    let mut left: usize = budget - 3 * cost;
    let mut i: usize = 0;
    while i < list_count
        invariant
            i <= list_count,
            fuel > 0,
            cost == price(fuel as nat),
            per == unit(fuel as nat),
            budget >= list_price(fuel as nat),
            list_count == u16_le(d@, at + 6),
            lists == u16_le(d@, at + 4) * 4 + at,
            d.len() <= MAX_LEN,
            at + 12 <= d.len(),
            whole == walk_list(d@, at as int, fuel as nat, budget as nat),
            lists_from(
                d@,
                at as int,
                0,
                fuel as nat,
                (budget - list_price(fuel as nat)) as nat,
            ) == lists_from(d@, at as int, i as int, fuel as nat, left as nat),
        decreases list_count - i,
    {
        assert(lists + 12 * i == list_at(d@, at as int, i as int));
        match check_list(d, lists + 12 * i, fuel - 1, left) {
            Some(rest) => {
                left = rest;
            },
            None => {
                return None;
            },
        }
        i += 1;
    }
    let ghost after_lists = left;
    assert(whole == objects_from(d@, at as int, 0, cost as nat, per as nat, after_lists as nat));
    let mut j: usize = 0;
    while j < object_count
        invariant
            j <= object_count,
            object_count == u16_le(d@, at + 10),
            objects == u16_le(d@, at + 8) * 4 + at,
            d.len() <= MAX_LEN,
            at + 12 <= d.len(),
            cost <= 20000,
            per <= 50,
            whole == walk_list(d@, at as int, fuel as nat, budget as nat),
            whole == objects_from(d@, at as int, j as int, cost as nat, per as nat, left as nat),
        decreases object_count - j,
    {
        assert(objects + 8 * j == object_at(d@, at as int, j as int));
        match check_object(d, objects + 8 * j, cost, per, left) {
            Some(rest) => {
                left = rest;
            },
            None => {
                return None;
            },
        }
        j += 1;
    }
    Some(left)
}

/// The hash that names what stands at `p`, as a machine number.
pub open spec fn name_at(d: Seq<u8>, p: int) -> u32 {
    u32_le(d, p) as u32
}

/// The names gathered so far, and behind them those of the parameters of
/// the object at `o` from parameter `k` on. A parameter whose eight bytes do
/// not lie in the archive is left out.
pub open spec fn gather_params(d: Seq<u8>, o: int, k: int, acc: Seq<u32>) -> Seq<u32>
    decreases u16_le(d, o + 6) - k,
{
    if k < 0 || k >= u16_le(d, o + 6) {
        acc
    } else if param_at(d, o, k) + 8 > d.len() {
        gather_params(d, o, k + 1, acc)
    } else {
        gather_params(d, o, k + 1, acc.push(name_at(d, param_at(d, o, k))))
    }
}

/// The names gathered so far, and behind them that of the object at `o` and
/// those of its parameters.
pub open spec fn gather_object(d: Seq<u8>, o: int, acc: Seq<u32>) -> Seq<u32> {
    if o < 0 || o + 8 > d.len() {
        acc
    } else {
        gather_params(d, o, 0, acc.push(name_at(d, o)))
    }
}

/// The names gathered so far, and behind them those of the objects of the
/// list at `at` from object `j` on, each with its parameters.
pub open spec fn gather_objects(d: Seq<u8>, at: int, j: int, acc: Seq<u32>) -> Seq<u32>
    decreases u16_le(d, at + 10) - j,
{
    if j < 0 || j >= u16_le(d, at + 10) {
        acc
    } else {
        gather_objects(d, at, j + 1, gather_object(d, object_at(d, at, j), acc))
    }
}

/// The names gathered so far, and behind them that of the list at `at`,
/// those of all that its lists hold, and those of its objects and their
/// parameters, down to `fuel` levels.
pub open spec fn gather_list(d: Seq<u8>, at: int, fuel: nat, acc: Seq<u32>) -> Seq<u32>
    decreases fuel, 1nat, 0nat,
{
    if fuel == 0 || at < 0 || at + 12 > d.len() {
        acc
    } else {
        gather_objects(d, at, 0, gather_lists(d, at, 0, fuel, acc.push(name_at(d, at))))
    }
}

/// The names gathered so far, and behind them those of the lists of the list
/// at `at` from list `i` on.
pub open spec fn gather_lists(d: Seq<u8>, at: int, i: int, fuel: nat, acc: Seq<u32>) -> Seq<u32>
    decreases fuel, 0nat, u16_le(d, at + 6) - i,
{
    if i < 0 || i >= u16_le(d, at + 6) || fuel == 0 {
        acc
    } else {
        gather_lists(
            d,
            at,
            i + 1,
            fuel,
            gather_list(d, list_at(d, at, i), (fuel - 1) as nat, acc),
        )
    }
}

/// Adds the names of the object at `o` and of its parameters to `out`.
pub fn add_object_names(d: &[u8], o: usize, out: &mut Vec<u32>)
    requires
        d.len() <= MAX_LEN,
    ensures
        final(out)@ == gather_object(d@, o as int, old(out)@),
{
    if d.len() < 8 || o > d.len() - 8 {
        return ;
    }
    let ghost whole = gather_object(d@, o as int, out@);
    out.push(read_u32(d, o, Endian::Little));
    let first: usize = read_u16(d, o + 4, Endian::Little) as usize * 4 + o;
    let n: usize = read_u16(d, o + 6, Endian::Little) as usize;
    let mut k: usize = 0;
    while k < n
        invariant
            k <= n,
            n == u16_le(d@, o + 6),
            first == u16_le(d@, o + 4) * 4 + o,
            d.len() <= MAX_LEN,
            o + 8 <= d.len(),
            whole == gather_params(d@, o as int, k as int, out@),
        decreases n - k,
    {
        assert(first + 8 * k == param_at(d@, o as int, k as int));
        if first + 8 * k <= d.len() - 8 {
            out.push(read_u32(d, first + 8 * k, Endian::Little));
        }
        k += 1;
    }
}

/// Adds the names of the list at `at` and of all it holds to `out`.
pub fn add_list_names(d: &[u8], at: usize, fuel: usize, out: &mut Vec<u32>)
    requires
        d.len() <= MAX_LEN,
    ensures
        final(out)@ == gather_list(d@, at as int, fuel as nat, old(out)@),
    decreases fuel,
{
    if fuel == 0 || d.len() < 12 || at > d.len() - 12 {
        return ;
    }
    let ghost whole = gather_list(d@, at as int, fuel as nat, out@);
    out.push(read_u32(d, at, Endian::Little));
    let ghost named = out@;
    let lists: usize = read_u16(d, at + 4, Endian::Little) as usize * 4 + at;
    let list_count: usize = read_u16(d, at + 6, Endian::Little) as usize;
    let objects: usize = read_u16(d, at + 8, Endian::Little) as usize * 4 + at;
    let object_count: usize = read_u16(d, at + 10, Endian::Little) as usize;
    let mut i: usize = 0;
    while i < list_count
        invariant
            i <= list_count,
            fuel > 0,
            list_count == u16_le(d@, at + 6),
            lists == u16_le(d@, at + 4) * 4 + at,
            d.len() <= MAX_LEN,
            at + 12 <= d.len(),
            gather_lists(d@, at as int, 0, fuel as nat, named) == gather_lists(
                d@,
                at as int,
                i as int,
                fuel as nat,
                out@,
            ),
        decreases list_count - i,
    {
        assert(lists + 12 * i == list_at(d@, at as int, i as int));
        add_list_names(d, lists + 12 * i, fuel - 1, out);
        i += 1;
    }
    assert(whole == gather_objects(d@, at as int, 0, out@));
    let mut j: usize = 0;
    while j < object_count
        invariant
            j <= object_count,
            object_count == u16_le(d@, at + 10),
            objects == u16_le(d@, at + 8) * 4 + at,
            d.len() <= MAX_LEN,
            at + 12 <= d.len(),
            whole == gather_objects(d@, at as int, j as int, out@),
        decreases object_count - j,
    {
        assert(objects + 8 * j == object_at(d@, at as int, j as int));
        add_object_names(d, objects + 8 * j, out);
        j += 1;
    }
}

/// Where the root list stands: behind the header of 0x30 bytes, as far as
/// the header says.
pub open spec fn root_at(d: Seq<u8>) -> int {
    u32_le(d, 0x14) + 0x30
}

/// An archive is sound: it has a whole header and is no longer than is
/// looked at, the name of its kind behind the header is text that can be
/// taken and tame, its root list lies in it, and the walk from the root list
/// is not refused.
pub open spec fn sound(d: Seq<u8>) -> bool {
    &&& 0x30 <= d.len() <= MAX_LEN
    &&& run_ok(d, 0x30, MAX_STRING as int, false)
    &&& text_heat(d, 0x30, MAX_STRING as int, false) == 0
    &&& root_at(d) + 12 <= d.len()
    &&& walk_list(d, root_at(d), MAX_NESTING as nat, MAX_NODES as nat) is Some
}

/// Decides `sound`.
pub fn check_sound(d: &[u8]) -> (r: bool)
    ensures
        r == sound(d@),
{
    if d.len() < 0x30 || d.len() > MAX_LEN {
        return false;
    }
    if !check_run(d, 0x30, MAX_STRING, false) || text_heat_of(d, 0x30, MAX_STRING, false) != 0 {
        return false;
    }
    let offset = read_u32(d, 0x14, Endian::Little);
    if offset as u64 + 0x30 + 12 > d.len() as u64 {
        return false;
    }
    check_list(d, offset as usize + 0x30, MAX_NESTING, MAX_NODES).is_some()
}

/// The names of an archive: the hashes that name its lists, objects and
/// parameters, in the order of the walk from the root list.
pub open spec fn gathered(d: Seq<u8>) -> Seq<u32> {
    gather_list(d, root_at(d), MAX_NESTING as nat, Seq::empty())
}

/// Gathers the names of a sound archive.
pub fn gather(d: &[u8]) -> (r: Vec<u32>)
    requires
        sound(d@),
    ensures
        r@ == gathered(d@),
{
    let mut out: Vec<u32> = Vec::new();
    let offset = read_u32(d, 0x14, Endian::Little);
    add_list_names(d, offset as usize + 0x30, MAX_NESTING, &mut out);
    out
}

} // verus!
