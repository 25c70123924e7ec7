//! Decoders from the parse tree's textual/keyword payloads into the
//! runtime-facing forms the interpreter reads: the modifier bitmask and the
//! integer literal values.
//!
//! Each Swift modifier keyword occupies one bit of the `u32` mask that crosses
//! the frontend→runtime seam. These named constants are the only place the
//! bit positions are written: [`modifier_bits`] (encode) and [`flag_names`]
//! (decode) derive from them.
use vstd::prelude::*;
use crate::text::chars_of;

verus! {

pub const PUBLIC: u32 = 0x1;
pub const PRIVATE: u32 = 0x2;
pub const INTERNAL: u32 = 0x4;
pub const FILEPRIVATE: u32 = 0x8;
pub const OPEN: u32 = 0x10;
pub const STATIC: u32 = 0x20;
pub const FINAL: u32 = 0x40;
pub const OVERRIDE: u32 = 0x80;
pub const MUTATING: u32 = 0x100;
pub const NONMUTATING: u32 = 0x200;
pub const LAZY: u32 = 0x400;
pub const WEAK: u32 = 0x800;
pub const UNOWNED: u32 = 0x1000;
pub const ASYNC: u32 = 0x2000;
pub const THROWS: u32 = 0x4000;
pub const RETHROWS: u32 = 0x8000;
pub const INDIRECT: u32 = 0x1_0000;
pub const REQUIRED: u32 = 0x2_0000;
pub const CONVENIENCE: u32 = 0x4_0000;
pub const DYNAMIC: u32 = 0x8_0000;
/// `@objc optional` protocol requirement.
pub const OPTIONAL_REQ: u32 = 0x10_0000;
/// A member reached through optional chaining (`base?.member`).
pub const OPTIONAL_CHAIN: u32 = 0x20_0000;
pub const ESCAPING: u32 = 0x400_0000;
pub const AUTOCLOSURE: u32 = 0x800_0000;
pub const VARIADIC: u32 = 0x1000_0000;
pub const FAILABLE: u32 = 0x2000_0000;
pub const INOUT: u32 = 0x4000_0000;

/// The bit one parser modifier keyword sets (0 for words that set none).
pub open spec fn modifier_bit(m: Seq<char>) -> u32 {
    if m == "public"@ {
        PUBLIC
    } else if m == "private"@ {
        PRIVATE
    } else if m == "internal"@ {
        INTERNAL
    } else if m == "fileprivate"@ {
        FILEPRIVATE
    } else if m == "open"@ {
        OPEN
    } else if m == "static"@ || m == "class"@ {
        STATIC
    } else if m == "final"@ {
        FINAL
    } else if m == "override"@ {
        OVERRIDE
    } else if m == "mutating"@ {
        MUTATING
    } else if m == "nonmutating"@ {
        NONMUTATING
    } else if m == "lazy"@ {
        LAZY
    } else if m == "weak"@ {
        WEAK
    } else if m == "unowned"@ {
        UNOWNED
    } else if m == "async"@ {
        ASYNC
    } else if m == "throws"@ {
        THROWS
    } else if m == "rethrows"@ {
        RETHROWS
    } else if m == "indirect"@ {
        INDIRECT
    } else if m == "required"@ {
        REQUIRED
    } else if m == "convenience"@ {
        CONVENIENCE
    } else if m == "dynamic"@ {
        DYNAMIC
    } else if m == "optional"@ {
        OPTIONAL_REQ
    } else if m == "?."@ {
        OPTIONAL_CHAIN
    } else if m == "escaping"@ {
        ESCAPING
    } else if m == "autoclosure"@ {
        AUTOCLOSURE
    } else if m == "variadic"@ {
        VARIADIC
    } else if m == "inout"@ {
        INOUT
    } else {
        0
    }
}

/// The union of the bits of every keyword in `ms`.
pub open spec fn modifier_mask(ms: Seq<Seq<char>>) -> u32
    decreases ms.len(),
{
    if ms.len() == 0 {
        0
    } else {
        modifier_mask(ms.drop_last()) | modifier_bit(ms.last())
    }
}

/// The scalar views of a list of strings.
pub open spec fn strings_view(v: Seq<String>) -> Seq<Seq<char>> {
    v.map_values(|s: String| s@)
}

fn one_modifier_bit(m: &String) -> (r: u32)
    ensures
        r == modifier_bit(m@),
{
    word_modifier_bit(m.as_str())
}

/// The bit that one modifier keyword sets (0 for words that set none).
pub fn word_modifier_bit(s: &str) -> (r: u32)
    ensures
        r == modifier_bit(s@),
{
    if crate::text::str_same(s, "public") {
        PUBLIC
    } else if crate::text::str_same(s, "private") {
        PRIVATE
    } else if crate::text::str_same(s, "internal") {
        INTERNAL
    } else if crate::text::str_same(s, "fileprivate") {
        FILEPRIVATE
    } else if crate::text::str_same(s, "open") {
        OPEN
    } else if crate::text::str_same(s, "static") || crate::text::str_same(s, "class") {
        STATIC
    } else if crate::text::str_same(s, "final") {
        FINAL
    } else if crate::text::str_same(s, "override") {
        OVERRIDE
    } else if crate::text::str_same(s, "mutating") {
        MUTATING
    } else if crate::text::str_same(s, "nonmutating") {
        NONMUTATING
    } else if crate::text::str_same(s, "lazy") {
        LAZY
    } else if crate::text::str_same(s, "weak") {
        WEAK
    } else if crate::text::str_same(s, "unowned") {
        UNOWNED
    } else if crate::text::str_same(s, "async") {
        ASYNC
    } else if crate::text::str_same(s, "throws") {
        THROWS
    } else if crate::text::str_same(s, "rethrows") {
        RETHROWS
    } else if crate::text::str_same(s, "indirect") {
        INDIRECT
    } else if crate::text::str_same(s, "required") {
        REQUIRED
    } else if crate::text::str_same(s, "convenience") {
        CONVENIENCE
    } else if crate::text::str_same(s, "dynamic") {
        DYNAMIC
    } else if crate::text::str_same(s, "optional") {
        OPTIONAL_REQ
    } else if crate::text::str_same(s, "?.") {
        OPTIONAL_CHAIN
    } else if crate::text::str_same(s, "escaping") {
        ESCAPING
    } else if crate::text::str_same(s, "autoclosure") {
        AUTOCLOSURE
    } else if crate::text::str_same(s, "variadic") {
        VARIADIC
    } else if crate::text::str_same(s, "inout") {
        INOUT
    } else {
        0
    }
}

/// Translate parser modifier keywords into the runtime-facing modifier bitmask.
pub fn modifier_bits(modifiers: &[String]) -> (r: u32)
    ensures
        r == modifier_mask(strings_view(modifiers@)),
{
    let mut bits = 0u32;
    let mut k: usize = 0;
    while k < modifiers.len()
        invariant
            k <= modifiers@.len(),
            bits == modifier_mask(strings_view(modifiers@.subrange(0, k as int))),
        decreases modifiers@.len() - k,
    {
        let b = one_modifier_bit(&modifiers[k]);
        proof {
            let pre = modifiers@.subrange(0, k as int + 1);
            assert(strings_view(pre).drop_last() =~= strings_view(modifiers@.subrange(0, k as int)));
            assert(strings_view(pre).last() == modifiers@[k as int]@);
        }
        bits = bits | b;
        k += 1;
    }
    assert(modifiers@.subrange(0, modifiers@.len() as int) =~= modifiers@);
    bits
}

/// The decl-modifier bits paired with their Swift keyword, in bit order.
pub open spec fn flag_table() -> Seq<(u32, &'static str)> {
    seq![
        (PUBLIC, "public"),
        (PRIVATE, "private"),
        (INTERNAL, "internal"),
        (FILEPRIVATE, "fileprivate"),
        (OPEN, "open"),
        (STATIC, "static"),
        (FINAL, "final"),
        (OVERRIDE, "override"),
        (MUTATING, "mutating"),
        (NONMUTATING, "nonmutating"),
        (LAZY, "lazy"),
        (WEAK, "weak"),
        (UNOWNED, "unowned"),
        (ASYNC, "async"),
        (THROWS, "throws"),
        (RETHROWS, "rethrows"),
        (INDIRECT, "indirect"),
        (REQUIRED, "required"),
        (CONVENIENCE, "convenience"),
        (DYNAMIC, "dynamic"),
        (OPTIONAL_REQ, "optional"),
        (ESCAPING, "escaping"),
        (AUTOCLOSURE, "autoclosure"),
        (VARIADIC, "variadic"),
        (FAILABLE, "failable"),
    ]
}

/// The names of the entries of `table` whose bit is set in `bits`, in order.
pub open spec fn names_set_in(table: Seq<(u32, &'static str)>, bits: u32) -> Seq<&'static str>
    decreases table.len(),
{
    if table.len() == 0 {
        Seq::empty()
    } else {
        let rest = names_set_in(table.drop_last(), bits);
        if bits & table.last().0 != 0 {
            rest.push(table.last().1)
        } else {
            rest
        }
    }
}

fn flag_table_vec() -> (r: Vec<(u32, &'static str)>)
    ensures
        r@ == flag_table(),
{
    let r = vec![
        (PUBLIC, "public"),
        (PRIVATE, "private"),
        (INTERNAL, "internal"),
        (FILEPRIVATE, "fileprivate"),
        (OPEN, "open"),
        (STATIC, "static"),
        (FINAL, "final"),
        (OVERRIDE, "override"),
        (MUTATING, "mutating"),
        (NONMUTATING, "nonmutating"),
        (LAZY, "lazy"),
        (WEAK, "weak"),
        (UNOWNED, "unowned"),
        (ASYNC, "async"),
        (THROWS, "throws"),
        (RETHROWS, "rethrows"),
        (INDIRECT, "indirect"),
        (REQUIRED, "required"),
        (CONVENIENCE, "convenience"),
        (DYNAMIC, "dynamic"),
        (OPTIONAL_REQ, "optional"),
        (ESCAPING, "escaping"),
        (AUTOCLOSURE, "autoclosure"),
        (VARIADIC, "variadic"),
        (FAILABLE, "failable"),
    ];
    assert(r@ =~= flag_table());
    r
}

/// The entries of `table` whose bit is set in `bits`, by name, in order.
pub fn names_of_set_bits(table: &Vec<(u32, &'static str)>, bits: u32) -> (r: Vec<&'static str>)
    ensures
        r@ == names_set_in(table@, bits),
{
    let mut out: Vec<&'static str> = Vec::new();
    let mut k: usize = 0;
    while k < table.len()
        invariant
            k <= table@.len(),
            out@ == names_set_in(table@.subrange(0, k as int), bits),
        decreases table@.len() - k,
    {
        let (bit, name) = table[k];
        proof {
            assert(table@.subrange(0, k as int + 1).drop_last() =~= table@.subrange(0, k as int));
        }
        if bits & bit != 0 {
            out.push(name);
        }
        k += 1;
    }
    assert(table@.subrange(0, table@.len() as int) =~= table@);
    out
}

/// Decode a modifier bitmask into its set Swift keyword names, in bit order.
pub fn flag_names(bits: u32) -> (r: Vec<&'static str>)
    ensures
        r@ == names_set_in(flag_table(), bits),
{
    let table = flag_table_vec();
    names_of_set_bits(&table, bits)
}

/// Whether `b` is the bit of an entry of [`flag_table`].
pub open spec fn table_bit(b: u32) -> bool {
    ||| b == 0x1 || b == 0x2 || b == 0x4 || b == 0x8 || b == 0x10 || b == 0x20 || b == 0x40
    ||| b == 0x80 || b == 0x100 || b == 0x200 || b == 0x400 || b == 0x800 || b == 0x1000
    ||| b == 0x2000 || b == 0x4000 || b == 0x8000 || b == 0x1_0000 || b == 0x2_0000
    ||| b == 0x4_0000 || b == 0x8_0000 || b == 0x10_0000 || b == 0x400_0000 || b == 0x800_0000
    ||| b == 0x1000_0000 || b == 0x2000_0000
}

/// Whether some keyword of `ms` sets the bit `b`.
pub open spec fn sets_bit(ms: Seq<Seq<char>>, b: u32) -> bool {
    exists|i: int| 0 <= i < ms.len() && #[trigger] modifier_bit(ms[i]) == b
}

/// The names of the entries of `table` whose bit some keyword of `ms` sets,
/// in table order.
pub open spec fn names_keyed_by(table: Seq<(u32, &'static str)>, ms: Seq<Seq<char>>) -> Seq<&'static str>
    decreases table.len(),
{
    if table.len() == 0 {
        Seq::empty()
    } else {
        let rest = names_keyed_by(table.drop_last(), ms);
        if sets_bit(ms, table.last().0) {
            rest.push(table.last().1)
        } else {
            rest
        }
    }
}

proof fn lemma_or_and(x: u32, y: u32, b: u32)
    by (bit_vector)
    ensures
        ((x | y) & b != 0) <==> (x & b != 0 || y & b != 0),
{
}

/// A keyword's bit meets a table bit only where the two are equal.
proof fn lemma_keyword_bit_and(c: u32, b: u32)
    by (bit_vector)
    requires
        c == 0 || c == 0x1 || c == 0x2 || c == 0x4 || c == 0x8 || c == 0x10 || c == 0x20 || c == 0x40
            || c == 0x80 || c == 0x100 || c == 0x200 || c == 0x400 || c == 0x800 || c == 0x1000
            || c == 0x2000 || c == 0x4000 || c == 0x8000 || c == 0x1_0000 || c == 0x2_0000
            || c == 0x4_0000 || c == 0x8_0000 || c == 0x10_0000 || c == 0x20_0000 || c == 0x400_0000
            || c == 0x800_0000 || c == 0x1000_0000 || c == 0x4000_0000,
        b == 0x1 || b == 0x2 || b == 0x4 || b == 0x8 || b == 0x10 || b == 0x20 || b == 0x40
            || b == 0x80 || b == 0x100 || b == 0x200 || b == 0x400 || b == 0x800 || b == 0x1000
            || b == 0x2000 || b == 0x4000 || b == 0x8000 || b == 0x1_0000 || b == 0x2_0000
            || b == 0x4_0000 || b == 0x8_0000 || b == 0x10_0000 || b == 0x400_0000 || b == 0x800_0000
            || b == 0x1000_0000 || b == 0x2000_0000,
    ensures
        (c & b != 0) <==> c == b,
{
}

/// A table bit is set in the mask of `ms` exactly when some keyword of `ms`
/// sets it.
proof fn lemma_mask_bit(ms: Seq<Seq<char>>, b: u32)
    requires
        table_bit(b),
    ensures
        (modifier_mask(ms) & b != 0) <==> sets_bit(ms, b),
    decreases ms.len(),
{
    if ms.len() == 0 {
        assert(0u32 & b == 0u32) by (bit_vector);
        assert(modifier_mask(ms) == 0u32);
        assert(!sets_bit(ms, b));
    } else {
        let init = ms.drop_last();
        lemma_mask_bit(init, b);
        lemma_or_and(modifier_mask(init), modifier_bit(ms.last()), b);
        lemma_keyword_bit_and(modifier_bit(ms.last()), b);
        if sets_bit(init, b) {
            let i = choose|i: int| 0 <= i < init.len() && #[trigger] modifier_bit(init[i]) == b;
            assert(ms[i] == init[i]);
        }
        if sets_bit(ms, b) {
            let i = choose|i: int| 0 <= i < ms.len() && #[trigger] modifier_bit(ms[i]) == b;
            if i < ms.len() - 1 {
                assert(init[i] == ms[i]);
            }
        }
        if modifier_bit(ms.last()) == b {
            assert(modifier_bit(ms[ms.len() - 1]) == b);
        }
        assert(modifier_mask(ms) == modifier_mask(init) | modifier_bit(ms.last()));
        assert((modifier_mask(ms) & b != 0) <==> (sets_bit(init, b) || modifier_bit(ms.last()) == b));
        assert(sets_bit(ms, b) <==> (sets_bit(init, b) || modifier_bit(ms.last()) == b));
    }
}

proof fn lemma_names_keyed(table: Seq<(u32, &'static str)>, ms: Seq<Seq<char>>)
    requires
        forall|k: int| 0 <= k < table.len() ==> table_bit(#[trigger] table[k].0),
    ensures
        names_set_in(table, modifier_mask(ms)) == names_keyed_by(table, ms),
    decreases table.len(),
{
    if table.len() > 0 {
        let init = table.drop_last();
        assert forall|k: int| 0 <= k < init.len() implies table_bit(#[trigger] init[k].0) by {
            assert(init[k] == table[k]);
        }
        lemma_names_keyed(init, ms);
        assert(table_bit(table[table.len() - 1].0));
        lemma_mask_bit(ms, table.last().0);
    }
}

/// Decoding the mask that a list of modifier keywords encodes gives back
/// the table names of exactly the bits those keywords set, each once, in
/// bit order: `flag_names(modifier_bits(ms))` names what `ms` declared.
pub proof fn lemma_flag_names_round_trip(ms: Seq<Seq<char>>)
    ensures
        names_set_in(flag_table(), modifier_mask(ms)) == names_keyed_by(flag_table(), ms),
{
    let t = flag_table();
    assert forall|k: int| 0 <= k < t.len() implies table_bit(#[trigger] t[k].0) by {
        assert(t[k].0 == flag_table()[k].0);
    }
    lemma_names_keyed(t, ms);
}


/// Two table bits meet only where they are equal.
proof fn lemma_table_bits_and(x: u32, y: u32)
    by (bit_vector)
    requires
        x == 0x1 || x == 0x2 || x == 0x4 || x == 0x8 || x == 0x10 || x == 0x20 || x == 0x40
            || x == 0x80 || x == 0x100 || x == 0x200 || x == 0x400 || x == 0x800 || x == 0x1000
            || x == 0x2000 || x == 0x4000 || x == 0x8000 || x == 0x1_0000 || x == 0x2_0000
            || x == 0x4_0000 || x == 0x8_0000 || x == 0x10_0000 || x == 0x400_0000 || x == 0x800_0000
            || x == 0x1000_0000 || x == 0x2000_0000,
        y == 0x1 || y == 0x2 || y == 0x4 || y == 0x8 || y == 0x10 || y == 0x20 || y == 0x40
            || y == 0x80 || y == 0x100 || y == 0x200 || y == 0x400 || y == 0x800 || y == 0x1000
            || y == 0x2000 || y == 0x4000 || y == 0x8000 || y == 0x1_0000 || y == 0x2_0000
            || y == 0x4_0000 || y == 0x8_0000 || y == 0x10_0000 || y == 0x400_0000 || y == 0x800_0000
            || y == 0x1000_0000 || y == 0x2000_0000,
    ensures
        (x & y != 0) <==> x == y,
{
}

/// The bits of [`flag_table`] are table bits, each larger than the one
/// before it.
proof fn lemma_flag_table_bits_increase()
    ensures
        flag_table().len() == 25,
        forall|k: int|
            0 <= k < flag_table().len() ==> table_bit(#[trigger] flag_table()[k].0) && (k + 1 < flag_table().len()
                ==> flag_table()[k].0 < flag_table()[k + 1].0),
{
    let t = flag_table();
    assert forall|k: int| 0 <= k < t.len() implies table_bit(#[trigger] t[k].0) && (k + 1 < t.len() ==> t[k].0
        < t[k + 1].0) by {
        if k == 0 {
        } else if k == 1 {
        } else if k == 2 {
        } else if k == 3 {
        } else if k == 4 {
        } else if k == 5 {
        } else if k == 6 {
        } else if k == 7 {
        } else if k == 8 {
        } else if k == 9 {
        } else if k == 10 {
        } else if k == 11 {
        } else if k == 12 {
        } else if k == 13 {
        } else if k == 14 {
        } else if k == 15 {
        } else if k == 16 {
        } else if k == 17 {
        } else if k == 18 {
        } else if k == 19 {
        } else if k == 20 {
        } else if k == 21 {
        } else if k == 22 {
        } else if k == 23 {
        } else if k == 24 {
        }
    }
}

/// Earlier entries of [`flag_table`] have smaller bits.
proof fn lemma_flag_table_bits_ordered(k1: int, k2: int)
    requires
        0 <= k1 < k2 < flag_table().len(),
    ensures
        flag_table()[k1].0 < flag_table()[k2].0,
    decreases k2 - k1,
{
    lemma_flag_table_bits_increase();
    if k2 > k1 + 1 {
        lemma_flag_table_bits_ordered(k1, k2 - 1);
    }
    assert(flag_table()[k2 - 1].0 < flag_table()[k2].0);
}

/// Of the first `n` entries of [`flag_table`], the bit of entry `j` names
/// entry `j` alone.
proof fn lemma_names_of_one_bit(j: int, n: int)
    requires
        0 <= j < flag_table().len(),
        0 <= n <= flag_table().len(),
    ensures
        names_set_in(flag_table().subrange(0, n), flag_table()[j].0) == if j < n {
            seq![flag_table()[j].1]
        } else {
            Seq::<&'static str>::empty()
        },
    decreases n,
{
    let t = flag_table();
    let s = t.subrange(0, n);
    lemma_flag_table_bits_increase();
    if n > 0 {
        assert(s.drop_last() =~= t.subrange(0, n - 1));
        assert(s.last() == t[n - 1]);
        lemma_names_of_one_bit(j, n - 1);
        assert(table_bit(t[n - 1].0));
        assert(table_bit(t[j].0));
        lemma_table_bits_and(t[j].0, t[n - 1].0);
        if j < n - 1 {
            lemma_flag_table_bits_ordered(j, n - 1);
        } else if j > n - 1 {
            lemma_flag_table_bits_ordered(n - 1, j);
        }
    } else {
        assert(s =~= Seq::<(u32, &'static str)>::empty());
    }
}

/// Two texts that differ at one position differ.
proof fn lemma_strs_differ(a: Seq<char>, b: Seq<char>, i: int)
    requires
        0 <= i < a.len(),
        i < b.len(),
        a[i] != b[i],
    ensures
        a != b,
{
}

/// The keyword `public` encodes to its flag.
proof fn lemma_bit_of_public()
    ensures
        modifier_bit("public"@) == PUBLIC,
{
    reveal_strlit("public");
}

/// The keyword `private` encodes to its flag.
proof fn lemma_bit_of_private()
    ensures
        modifier_bit("private"@) == PRIVATE,
{
    reveal_strlit("private");
    reveal_strlit("public");
    assert("private"@.len() != "public"@.len());
}

/// The keyword `internal` encodes to its flag.
proof fn lemma_bit_of_internal()
    ensures
        modifier_bit("internal"@) == INTERNAL,
{
    reveal_strlit("internal");
    reveal_strlit("public");
    assert("internal"@.len() != "public"@.len());
    reveal_strlit("private");
    assert("internal"@.len() != "private"@.len());
}

/// The keyword `fileprivate` encodes to its flag.
proof fn lemma_bit_of_fileprivate()
    ensures
        modifier_bit("fileprivate"@) == FILEPRIVATE,
{
    reveal_strlit("fileprivate");
    reveal_strlit("public");
    assert("fileprivate"@.len() != "public"@.len());
    reveal_strlit("private");
    assert("fileprivate"@.len() != "private"@.len());
    reveal_strlit("internal");
    assert("fileprivate"@.len() != "internal"@.len());
}

/// The keyword `open` encodes to its flag.
proof fn lemma_bit_of_open()
    ensures
        modifier_bit("open"@) == OPEN,
{
    reveal_strlit("open");
    reveal_strlit("public");
    assert("open"@.len() != "public"@.len());
    reveal_strlit("private");
    assert("open"@.len() != "private"@.len());
    reveal_strlit("internal");
    assert("open"@.len() != "internal"@.len());
    reveal_strlit("fileprivate");
    assert("open"@.len() != "fileprivate"@.len());
}

/// The keyword `static` encodes to its flag.
proof fn lemma_bit_of_static()
    ensures
        modifier_bit("static"@) == STATIC,
{
    reveal_strlit("static");
    reveal_strlit("public");
    lemma_strs_differ("static"@, "public"@, 0);
    reveal_strlit("private");
    assert("static"@.len() != "private"@.len());
    reveal_strlit("internal");
    assert("static"@.len() != "internal"@.len());
    reveal_strlit("fileprivate");
    assert("static"@.len() != "fileprivate"@.len());
    reveal_strlit("open");
    assert("static"@.len() != "open"@.len());
}

/// The keyword `final` encodes to its flag.
proof fn lemma_bit_of_final()
    ensures
        modifier_bit("final"@) == FINAL,
{
    reveal_strlit("final");
    reveal_strlit("public");
    assert("final"@.len() != "public"@.len());
    reveal_strlit("private");
    assert("final"@.len() != "private"@.len());
    reveal_strlit("internal");
    assert("final"@.len() != "internal"@.len());
    reveal_strlit("fileprivate");
    assert("final"@.len() != "fileprivate"@.len());
    reveal_strlit("open");
    assert("final"@.len() != "open"@.len());
    reveal_strlit("static");
    assert("final"@.len() != "static"@.len());
    reveal_strlit("class");
    lemma_strs_differ("final"@, "class"@, 0);
}

/// The keyword `override` encodes to its flag.
proof fn lemma_bit_of_override()
    ensures
        modifier_bit("override"@) == OVERRIDE,
{
    reveal_strlit("override");
    reveal_strlit("public");
    assert("override"@.len() != "public"@.len());
    reveal_strlit("private");
    assert("override"@.len() != "private"@.len());
    reveal_strlit("internal");
    lemma_strs_differ("override"@, "internal"@, 0);
    reveal_strlit("fileprivate");
    assert("override"@.len() != "fileprivate"@.len());
    reveal_strlit("open");
    assert("override"@.len() != "open"@.len());
    reveal_strlit("static");
    assert("override"@.len() != "static"@.len());
    reveal_strlit("class");
    assert("override"@.len() != "class"@.len());
    reveal_strlit("final");
    assert("override"@.len() != "final"@.len());
}

/// The keyword `mutating` encodes to its flag.
proof fn lemma_bit_of_mutating()
    ensures
        modifier_bit("mutating"@) == MUTATING,
{
    reveal_strlit("mutating");
    reveal_strlit("public");
    assert("mutating"@.len() != "public"@.len());
    reveal_strlit("private");
    assert("mutating"@.len() != "private"@.len());
    reveal_strlit("internal");
    lemma_strs_differ("mutating"@, "internal"@, 0);
    reveal_strlit("fileprivate");
    assert("mutating"@.len() != "fileprivate"@.len());
    reveal_strlit("open");
    assert("mutating"@.len() != "open"@.len());
    reveal_strlit("static");
    assert("mutating"@.len() != "static"@.len());
    reveal_strlit("class");
    assert("mutating"@.len() != "class"@.len());
    reveal_strlit("final");
    assert("mutating"@.len() != "final"@.len());
    reveal_strlit("override");
    lemma_strs_differ("mutating"@, "override"@, 0);
}

/// The keyword `nonmutating` encodes to its flag.
proof fn lemma_bit_of_nonmutating()
    ensures
        modifier_bit("nonmutating"@) == NONMUTATING,
{
    reveal_strlit("nonmutating");
    reveal_strlit("public");
    assert("nonmutating"@.len() != "public"@.len());
    reveal_strlit("private");
    assert("nonmutating"@.len() != "private"@.len());
    reveal_strlit("internal");
    assert("nonmutating"@.len() != "internal"@.len());
    reveal_strlit("fileprivate");
    lemma_strs_differ("nonmutating"@, "fileprivate"@, 0);
    reveal_strlit("open");
    assert("nonmutating"@.len() != "open"@.len());
    reveal_strlit("static");
    assert("nonmutating"@.len() != "static"@.len());
    reveal_strlit("class");
    assert("nonmutating"@.len() != "class"@.len());
    reveal_strlit("final");
    assert("nonmutating"@.len() != "final"@.len());
    reveal_strlit("override");
    assert("nonmutating"@.len() != "override"@.len());
    reveal_strlit("mutating");
    assert("nonmutating"@.len() != "mutating"@.len());
}

/// The keyword `lazy` encodes to its flag.
proof fn lemma_bit_of_lazy()
    ensures
        modifier_bit("lazy"@) == LAZY,
{
    reveal_strlit("lazy");
    reveal_strlit("public");
    assert("lazy"@.len() != "public"@.len());
    reveal_strlit("private");
    assert("lazy"@.len() != "private"@.len());
    reveal_strlit("internal");
    assert("lazy"@.len() != "internal"@.len());
    reveal_strlit("fileprivate");
    assert("lazy"@.len() != "fileprivate"@.len());
    reveal_strlit("open");
    lemma_strs_differ("lazy"@, "open"@, 0);
    reveal_strlit("static");
    assert("lazy"@.len() != "static"@.len());
    reveal_strlit("class");
    assert("lazy"@.len() != "class"@.len());
    reveal_strlit("final");
    assert("lazy"@.len() != "final"@.len());
    reveal_strlit("override");
    assert("lazy"@.len() != "override"@.len());
    reveal_strlit("mutating");
    assert("lazy"@.len() != "mutating"@.len());
    reveal_strlit("nonmutating");
    assert("lazy"@.len() != "nonmutating"@.len());
}

/// The keyword `weak` encodes to its flag.
proof fn lemma_bit_of_weak()
    ensures
        modifier_bit("weak"@) == WEAK,
{
    reveal_strlit("weak");
    reveal_strlit("public");
    assert("weak"@.len() != "public"@.len());
    reveal_strlit("private");
    assert("weak"@.len() != "private"@.len());
    reveal_strlit("internal");
    assert("weak"@.len() != "internal"@.len());
    reveal_strlit("fileprivate");
    assert("weak"@.len() != "fileprivate"@.len());
    reveal_strlit("open");
    lemma_strs_differ("weak"@, "open"@, 0);
    reveal_strlit("static");
    assert("weak"@.len() != "static"@.len());
    reveal_strlit("class");
    assert("weak"@.len() != "class"@.len());
    reveal_strlit("final");
    assert("weak"@.len() != "final"@.len());
    reveal_strlit("override");
    assert("weak"@.len() != "override"@.len());
    reveal_strlit("mutating");
    assert("weak"@.len() != "mutating"@.len());
    reveal_strlit("nonmutating");
    assert("weak"@.len() != "nonmutating"@.len());
    reveal_strlit("lazy");
    lemma_strs_differ("weak"@, "lazy"@, 0);
}

/// The keyword `unowned` encodes to its flag.
proof fn lemma_bit_of_unowned()
    ensures
        modifier_bit("unowned"@) == UNOWNED,
{
    reveal_strlit("unowned");
    reveal_strlit("public");
    assert("unowned"@.len() != "public"@.len());
    reveal_strlit("private");
    lemma_strs_differ("unowned"@, "private"@, 0);
    reveal_strlit("internal");
    assert("unowned"@.len() != "internal"@.len());
    reveal_strlit("fileprivate");
    assert("unowned"@.len() != "fileprivate"@.len());
    reveal_strlit("open");
    assert("unowned"@.len() != "open"@.len());
    reveal_strlit("static");
    assert("unowned"@.len() != "static"@.len());
    reveal_strlit("class");
    assert("unowned"@.len() != "class"@.len());
    reveal_strlit("final");
    assert("unowned"@.len() != "final"@.len());
    reveal_strlit("override");
    assert("unowned"@.len() != "override"@.len());
    reveal_strlit("mutating");
    assert("unowned"@.len() != "mutating"@.len());
    reveal_strlit("nonmutating");
    assert("unowned"@.len() != "nonmutating"@.len());
    reveal_strlit("lazy");
    assert("unowned"@.len() != "lazy"@.len());
    reveal_strlit("weak");
    assert("unowned"@.len() != "weak"@.len());
}

/// The keyword `async` encodes to its flag.
proof fn lemma_bit_of_async()
    ensures
        modifier_bit("async"@) == ASYNC,
{
    reveal_strlit("async");
    reveal_strlit("public");
    assert("async"@.len() != "public"@.len());
    reveal_strlit("private");
    assert("async"@.len() != "private"@.len());
    reveal_strlit("internal");
    assert("async"@.len() != "internal"@.len());
    reveal_strlit("fileprivate");
    assert("async"@.len() != "fileprivate"@.len());
    reveal_strlit("open");
    assert("async"@.len() != "open"@.len());
    reveal_strlit("static");
    assert("async"@.len() != "static"@.len());
    reveal_strlit("class");
    lemma_strs_differ("async"@, "class"@, 0);
    reveal_strlit("final");
    lemma_strs_differ("async"@, "final"@, 0);
    reveal_strlit("override");
    assert("async"@.len() != "override"@.len());
    reveal_strlit("mutating");
    assert("async"@.len() != "mutating"@.len());
    reveal_strlit("nonmutating");
    assert("async"@.len() != "nonmutating"@.len());
    reveal_strlit("lazy");
    assert("async"@.len() != "lazy"@.len());
    reveal_strlit("weak");
    assert("async"@.len() != "weak"@.len());
    reveal_strlit("unowned");
    assert("async"@.len() != "unowned"@.len());
}

/// The keyword `throws` encodes to its flag.
proof fn lemma_bit_of_throws()
    ensures
        modifier_bit("throws"@) == THROWS,
{
    reveal_strlit("throws");
    reveal_strlit("public");
    lemma_strs_differ("throws"@, "public"@, 0);
    reveal_strlit("private");
    assert("throws"@.len() != "private"@.len());
    reveal_strlit("internal");
    assert("throws"@.len() != "internal"@.len());
    reveal_strlit("fileprivate");
    assert("throws"@.len() != "fileprivate"@.len());
    reveal_strlit("open");
    assert("throws"@.len() != "open"@.len());
    reveal_strlit("static");
    lemma_strs_differ("throws"@, "static"@, 0);
    reveal_strlit("class");
    assert("throws"@.len() != "class"@.len());
    reveal_strlit("final");
    assert("throws"@.len() != "final"@.len());
    reveal_strlit("override");
    assert("throws"@.len() != "override"@.len());
    reveal_strlit("mutating");
    assert("throws"@.len() != "mutating"@.len());
    reveal_strlit("nonmutating");
    assert("throws"@.len() != "nonmutating"@.len());
    reveal_strlit("lazy");
    assert("throws"@.len() != "lazy"@.len());
    reveal_strlit("weak");
    assert("throws"@.len() != "weak"@.len());
    reveal_strlit("unowned");
    assert("throws"@.len() != "unowned"@.len());
    reveal_strlit("async");
    assert("throws"@.len() != "async"@.len());
}

/// The keyword `rethrows` encodes to its flag.
proof fn lemma_bit_of_rethrows()
    ensures
        modifier_bit("rethrows"@) == RETHROWS,
{
    reveal_strlit("rethrows");
    reveal_strlit("public");
    assert("rethrows"@.len() != "public"@.len());
    reveal_strlit("private");
    assert("rethrows"@.len() != "private"@.len());
    reveal_strlit("internal");
    lemma_strs_differ("rethrows"@, "internal"@, 0);
    reveal_strlit("fileprivate");
    assert("rethrows"@.len() != "fileprivate"@.len());
    reveal_strlit("open");
    assert("rethrows"@.len() != "open"@.len());
    reveal_strlit("static");
    assert("rethrows"@.len() != "static"@.len());
    reveal_strlit("class");
    assert("rethrows"@.len() != "class"@.len());
    reveal_strlit("final");
    assert("rethrows"@.len() != "final"@.len());
    reveal_strlit("override");
    lemma_strs_differ("rethrows"@, "override"@, 0);
    reveal_strlit("mutating");
    lemma_strs_differ("rethrows"@, "mutating"@, 0);
    reveal_strlit("nonmutating");
    assert("rethrows"@.len() != "nonmutating"@.len());
    reveal_strlit("lazy");
    assert("rethrows"@.len() != "lazy"@.len());
    reveal_strlit("weak");
    assert("rethrows"@.len() != "weak"@.len());
    reveal_strlit("unowned");
    assert("rethrows"@.len() != "unowned"@.len());
    reveal_strlit("async");
    assert("rethrows"@.len() != "async"@.len());
    reveal_strlit("throws");
    assert("rethrows"@.len() != "throws"@.len());
}

/// The keyword `indirect` encodes to its flag.
proof fn lemma_bit_of_indirect()
    ensures
        modifier_bit("indirect"@) == INDIRECT,
{
    reveal_strlit("indirect");
    reveal_strlit("public");
    assert("indirect"@.len() != "public"@.len());
    reveal_strlit("private");
    assert("indirect"@.len() != "private"@.len());
    reveal_strlit("internal");
    lemma_strs_differ("indirect"@, "internal"@, 2);
    reveal_strlit("fileprivate");
    assert("indirect"@.len() != "fileprivate"@.len());
    reveal_strlit("open");
    assert("indirect"@.len() != "open"@.len());
    reveal_strlit("static");
    assert("indirect"@.len() != "static"@.len());
    reveal_strlit("class");
    assert("indirect"@.len() != "class"@.len());
    reveal_strlit("final");
    assert("indirect"@.len() != "final"@.len());
    reveal_strlit("override");
    lemma_strs_differ("indirect"@, "override"@, 0);
    reveal_strlit("mutating");
    lemma_strs_differ("indirect"@, "mutating"@, 0);
    reveal_strlit("nonmutating");
    assert("indirect"@.len() != "nonmutating"@.len());
    reveal_strlit("lazy");
    assert("indirect"@.len() != "lazy"@.len());
    reveal_strlit("weak");
    assert("indirect"@.len() != "weak"@.len());
    reveal_strlit("unowned");
    assert("indirect"@.len() != "unowned"@.len());
    reveal_strlit("async");
    assert("indirect"@.len() != "async"@.len());
    reveal_strlit("throws");
    assert("indirect"@.len() != "throws"@.len());
    reveal_strlit("rethrows");
    lemma_strs_differ("indirect"@, "rethrows"@, 0);
}

/// The keyword `required` encodes to its flag.
proof fn lemma_bit_of_required()
    ensures
        modifier_bit("required"@) == REQUIRED,
{
    reveal_strlit("required");
    reveal_strlit("public");
    assert("required"@.len() != "public"@.len());
    reveal_strlit("private");
    assert("required"@.len() != "private"@.len());
    reveal_strlit("internal");
    lemma_strs_differ("required"@, "internal"@, 0);
    reveal_strlit("fileprivate");
    assert("required"@.len() != "fileprivate"@.len());
    reveal_strlit("open");
    assert("required"@.len() != "open"@.len());
    reveal_strlit("static");
    assert("required"@.len() != "static"@.len());
    reveal_strlit("class");
    assert("required"@.len() != "class"@.len());
    reveal_strlit("final");
    assert("required"@.len() != "final"@.len());
    reveal_strlit("override");
    lemma_strs_differ("required"@, "override"@, 0);
    reveal_strlit("mutating");
    lemma_strs_differ("required"@, "mutating"@, 0);
    reveal_strlit("nonmutating");
    assert("required"@.len() != "nonmutating"@.len());
    reveal_strlit("lazy");
    assert("required"@.len() != "lazy"@.len());
    reveal_strlit("weak");
    assert("required"@.len() != "weak"@.len());
    reveal_strlit("unowned");
    assert("required"@.len() != "unowned"@.len());
    reveal_strlit("async");
    assert("required"@.len() != "async"@.len());
    reveal_strlit("throws");
    assert("required"@.len() != "throws"@.len());
    reveal_strlit("rethrows");
    lemma_strs_differ("required"@, "rethrows"@, 2);
    reveal_strlit("indirect");
    lemma_strs_differ("required"@, "indirect"@, 0);
}

/// The keyword `convenience` encodes to its flag.
proof fn lemma_bit_of_convenience()
    ensures
        modifier_bit("convenience"@) == CONVENIENCE,
{
    reveal_strlit("convenience");
    reveal_strlit("public");
    assert("convenience"@.len() != "public"@.len());
    reveal_strlit("private");
    assert("convenience"@.len() != "private"@.len());
    reveal_strlit("internal");
    assert("convenience"@.len() != "internal"@.len());
    reveal_strlit("fileprivate");
    lemma_strs_differ("convenience"@, "fileprivate"@, 0);
    reveal_strlit("open");
    assert("convenience"@.len() != "open"@.len());
    reveal_strlit("static");
    assert("convenience"@.len() != "static"@.len());
    reveal_strlit("class");
    assert("convenience"@.len() != "class"@.len());
    reveal_strlit("final");
    assert("convenience"@.len() != "final"@.len());
    reveal_strlit("override");
    assert("convenience"@.len() != "override"@.len());
    reveal_strlit("mutating");
    assert("convenience"@.len() != "mutating"@.len());
    reveal_strlit("nonmutating");
    lemma_strs_differ("convenience"@, "nonmutating"@, 0);
    reveal_strlit("lazy");
    assert("convenience"@.len() != "lazy"@.len());
    reveal_strlit("weak");
    assert("convenience"@.len() != "weak"@.len());
    reveal_strlit("unowned");
    assert("convenience"@.len() != "unowned"@.len());
    reveal_strlit("async");
    assert("convenience"@.len() != "async"@.len());
    reveal_strlit("throws");
    assert("convenience"@.len() != "throws"@.len());
    reveal_strlit("rethrows");
    assert("convenience"@.len() != "rethrows"@.len());
    reveal_strlit("indirect");
    assert("convenience"@.len() != "indirect"@.len());
    reveal_strlit("required");
    assert("convenience"@.len() != "required"@.len());
}

/// The keyword `dynamic` encodes to its flag.
proof fn lemma_bit_of_dynamic()
    ensures
        modifier_bit("dynamic"@) == DYNAMIC,
{
    reveal_strlit("dynamic");
    reveal_strlit("public");
    assert("dynamic"@.len() != "public"@.len());
    reveal_strlit("private");
    lemma_strs_differ("dynamic"@, "private"@, 0);
    reveal_strlit("internal");
    assert("dynamic"@.len() != "internal"@.len());
    reveal_strlit("fileprivate");
    assert("dynamic"@.len() != "fileprivate"@.len());
    reveal_strlit("open");
    assert("dynamic"@.len() != "open"@.len());
    reveal_strlit("static");
    assert("dynamic"@.len() != "static"@.len());
    reveal_strlit("class");
    assert("dynamic"@.len() != "class"@.len());
    reveal_strlit("final");
    assert("dynamic"@.len() != "final"@.len());
    reveal_strlit("override");
    assert("dynamic"@.len() != "override"@.len());
    reveal_strlit("mutating");
    assert("dynamic"@.len() != "mutating"@.len());
    reveal_strlit("nonmutating");
    assert("dynamic"@.len() != "nonmutating"@.len());
    reveal_strlit("lazy");
    assert("dynamic"@.len() != "lazy"@.len());
    reveal_strlit("weak");
    assert("dynamic"@.len() != "weak"@.len());
    reveal_strlit("unowned");
    lemma_strs_differ("dynamic"@, "unowned"@, 0);
    reveal_strlit("async");
    assert("dynamic"@.len() != "async"@.len());
    reveal_strlit("throws");
    assert("dynamic"@.len() != "throws"@.len());
    reveal_strlit("rethrows");
    assert("dynamic"@.len() != "rethrows"@.len());
    reveal_strlit("indirect");
    assert("dynamic"@.len() != "indirect"@.len());
    reveal_strlit("required");
    assert("dynamic"@.len() != "required"@.len());
    reveal_strlit("convenience");
    assert("dynamic"@.len() != "convenience"@.len());
}

/// The keyword `optional` encodes to its flag.
proof fn lemma_bit_of_optional()
    ensures
        modifier_bit("optional"@) == OPTIONAL_REQ,
{
    reveal_strlit("optional");
    reveal_strlit("public");
    assert("optional"@.len() != "public"@.len());
    reveal_strlit("private");
    assert("optional"@.len() != "private"@.len());
    reveal_strlit("internal");
    lemma_strs_differ("optional"@, "internal"@, 0);
    reveal_strlit("fileprivate");
    assert("optional"@.len() != "fileprivate"@.len());
    reveal_strlit("open");
    assert("optional"@.len() != "open"@.len());
    reveal_strlit("static");
    assert("optional"@.len() != "static"@.len());
    reveal_strlit("class");
    assert("optional"@.len() != "class"@.len());
    reveal_strlit("final");
    assert("optional"@.len() != "final"@.len());
    reveal_strlit("override");
    lemma_strs_differ("optional"@, "override"@, 1);
    reveal_strlit("mutating");
    lemma_strs_differ("optional"@, "mutating"@, 0);
    reveal_strlit("nonmutating");
    assert("optional"@.len() != "nonmutating"@.len());
    reveal_strlit("lazy");
    assert("optional"@.len() != "lazy"@.len());
    reveal_strlit("weak");
    assert("optional"@.len() != "weak"@.len());
    reveal_strlit("unowned");
    assert("optional"@.len() != "unowned"@.len());
    reveal_strlit("async");
    assert("optional"@.len() != "async"@.len());
    reveal_strlit("throws");
    assert("optional"@.len() != "throws"@.len());
    reveal_strlit("rethrows");
    lemma_strs_differ("optional"@, "rethrows"@, 0);
    reveal_strlit("indirect");
    lemma_strs_differ("optional"@, "indirect"@, 0);
    reveal_strlit("required");
    lemma_strs_differ("optional"@, "required"@, 0);
    reveal_strlit("convenience");
    assert("optional"@.len() != "convenience"@.len());
    reveal_strlit("dynamic");
    assert("optional"@.len() != "dynamic"@.len());
}

/// The keyword `escaping` encodes to its flag.
proof fn lemma_bit_of_escaping()
    ensures
        modifier_bit("escaping"@) == ESCAPING,
{
    reveal_strlit("escaping");
    reveal_strlit("public");
    assert("escaping"@.len() != "public"@.len());
    reveal_strlit("private");
    assert("escaping"@.len() != "private"@.len());
    reveal_strlit("internal");
    lemma_strs_differ("escaping"@, "internal"@, 0);
    reveal_strlit("fileprivate");
    assert("escaping"@.len() != "fileprivate"@.len());
    reveal_strlit("open");
    assert("escaping"@.len() != "open"@.len());
    reveal_strlit("static");
    assert("escaping"@.len() != "static"@.len());
    reveal_strlit("class");
    assert("escaping"@.len() != "class"@.len());
    reveal_strlit("final");
    assert("escaping"@.len() != "final"@.len());
    reveal_strlit("override");
    lemma_strs_differ("escaping"@, "override"@, 0);
    reveal_strlit("mutating");
    lemma_strs_differ("escaping"@, "mutating"@, 0);
    reveal_strlit("nonmutating");
    assert("escaping"@.len() != "nonmutating"@.len());
    reveal_strlit("lazy");
    assert("escaping"@.len() != "lazy"@.len());
    reveal_strlit("weak");
    assert("escaping"@.len() != "weak"@.len());
    reveal_strlit("unowned");
    assert("escaping"@.len() != "unowned"@.len());
    reveal_strlit("async");
    assert("escaping"@.len() != "async"@.len());
    reveal_strlit("throws");
    assert("escaping"@.len() != "throws"@.len());
    reveal_strlit("rethrows");
    lemma_strs_differ("escaping"@, "rethrows"@, 0);
    reveal_strlit("indirect");
    lemma_strs_differ("escaping"@, "indirect"@, 0);
    reveal_strlit("required");
    lemma_strs_differ("escaping"@, "required"@, 0);
    reveal_strlit("convenience");
    assert("escaping"@.len() != "convenience"@.len());
    reveal_strlit("dynamic");
    assert("escaping"@.len() != "dynamic"@.len());
    reveal_strlit("optional");
    lemma_strs_differ("escaping"@, "optional"@, 0);
    reveal_strlit("?.");
    assert("escaping"@.len() != "?."@.len());
}

/// The keyword `autoclosure` encodes to its flag.
proof fn lemma_bit_of_autoclosure()
    ensures
        modifier_bit("autoclosure"@) == AUTOCLOSURE,
{
    reveal_strlit("autoclosure");
    reveal_strlit("public");
    assert("autoclosure"@.len() != "public"@.len());
    reveal_strlit("private");
    assert("autoclosure"@.len() != "private"@.len());
    reveal_strlit("internal");
    assert("autoclosure"@.len() != "internal"@.len());
    reveal_strlit("fileprivate");
    lemma_strs_differ("autoclosure"@, "fileprivate"@, 0);
    reveal_strlit("open");
    assert("autoclosure"@.len() != "open"@.len());
    reveal_strlit("static");
    assert("autoclosure"@.len() != "static"@.len());
    reveal_strlit("class");
    assert("autoclosure"@.len() != "class"@.len());
    reveal_strlit("final");
    assert("autoclosure"@.len() != "final"@.len());
    reveal_strlit("override");
    assert("autoclosure"@.len() != "override"@.len());
    reveal_strlit("mutating");
    assert("autoclosure"@.len() != "mutating"@.len());
    reveal_strlit("nonmutating");
    lemma_strs_differ("autoclosure"@, "nonmutating"@, 0);
    reveal_strlit("lazy");
    assert("autoclosure"@.len() != "lazy"@.len());
    reveal_strlit("weak");
    assert("autoclosure"@.len() != "weak"@.len());
    reveal_strlit("unowned");
    assert("autoclosure"@.len() != "unowned"@.len());
    reveal_strlit("async");
    assert("autoclosure"@.len() != "async"@.len());
    reveal_strlit("throws");
    assert("autoclosure"@.len() != "throws"@.len());
    reveal_strlit("rethrows");
    assert("autoclosure"@.len() != "rethrows"@.len());
    reveal_strlit("indirect");
    assert("autoclosure"@.len() != "indirect"@.len());
    reveal_strlit("required");
    assert("autoclosure"@.len() != "required"@.len());
    reveal_strlit("convenience");
    lemma_strs_differ("autoclosure"@, "convenience"@, 0);
    reveal_strlit("dynamic");
    assert("autoclosure"@.len() != "dynamic"@.len());
    reveal_strlit("optional");
    assert("autoclosure"@.len() != "optional"@.len());
    reveal_strlit("?.");
    assert("autoclosure"@.len() != "?."@.len());
    reveal_strlit("escaping");
    assert("autoclosure"@.len() != "escaping"@.len());
}

/// The keyword `variadic` encodes to its flag.
proof fn lemma_bit_of_variadic()
    ensures
        modifier_bit("variadic"@) == VARIADIC,
{
    reveal_strlit("variadic");
    reveal_strlit("public");
    assert("variadic"@.len() != "public"@.len());
    reveal_strlit("private");
    assert("variadic"@.len() != "private"@.len());
    reveal_strlit("internal");
    lemma_strs_differ("variadic"@, "internal"@, 0);
    reveal_strlit("fileprivate");
    assert("variadic"@.len() != "fileprivate"@.len());
    reveal_strlit("open");
    assert("variadic"@.len() != "open"@.len());
    reveal_strlit("static");
    assert("variadic"@.len() != "static"@.len());
    reveal_strlit("class");
    assert("variadic"@.len() != "class"@.len());
    reveal_strlit("final");
    assert("variadic"@.len() != "final"@.len());
    reveal_strlit("override");
    lemma_strs_differ("variadic"@, "override"@, 0);
    reveal_strlit("mutating");
    lemma_strs_differ("variadic"@, "mutating"@, 0);
    reveal_strlit("nonmutating");
    assert("variadic"@.len() != "nonmutating"@.len());
    reveal_strlit("lazy");
    assert("variadic"@.len() != "lazy"@.len());
    reveal_strlit("weak");
    assert("variadic"@.len() != "weak"@.len());
    reveal_strlit("unowned");
    assert("variadic"@.len() != "unowned"@.len());
    reveal_strlit("async");
    assert("variadic"@.len() != "async"@.len());
    reveal_strlit("throws");
    assert("variadic"@.len() != "throws"@.len());
    reveal_strlit("rethrows");
    lemma_strs_differ("variadic"@, "rethrows"@, 0);
    reveal_strlit("indirect");
    lemma_strs_differ("variadic"@, "indirect"@, 0);
    reveal_strlit("required");
    lemma_strs_differ("variadic"@, "required"@, 0);
    reveal_strlit("convenience");
    assert("variadic"@.len() != "convenience"@.len());
    reveal_strlit("dynamic");
    assert("variadic"@.len() != "dynamic"@.len());
    reveal_strlit("optional");
    lemma_strs_differ("variadic"@, "optional"@, 0);
    reveal_strlit("?.");
    assert("variadic"@.len() != "?."@.len());
    reveal_strlit("escaping");
    lemma_strs_differ("variadic"@, "escaping"@, 0);
    reveal_strlit("autoclosure");
    assert("variadic"@.len() != "autoclosure"@.len());
}

/// Every keyword that names a flag of [`flag_table`] encodes to that flag's
/// own bit, so that decoding the mask of a lone such keyword gives back just
/// that keyword. The one flag no keyword sets is `failable`: the parser
/// records it on a failable initializer (`init?`) directly.
pub proof fn lemma_table_keywords_encode_to_their_bits(j: int)
    requires
        0 <= j < flag_table().len(),
        flag_table()[j].1@ != "failable"@,
    ensures
        modifier_bit(flag_table()[j].1@) == flag_table()[j].0,
        names_set_in(flag_table(), modifier_mask(seq![flag_table()[j].1@])) == seq![flag_table()[j].1],
{
    let t = flag_table();
    lemma_flag_table_bits_increase();
    assert(t[24].1@ == "failable"@);
    if j == 0 {
        lemma_bit_of_public();
    } else if j == 1 {
        lemma_bit_of_private();
    } else if j == 2 {
        lemma_bit_of_internal();
    } else if j == 3 {
        lemma_bit_of_fileprivate();
    } else if j == 4 {
        lemma_bit_of_open();
    } else if j == 5 {
        lemma_bit_of_static();
    } else if j == 6 {
        lemma_bit_of_final();
    } else if j == 7 {
        lemma_bit_of_override();
    } else if j == 8 {
        lemma_bit_of_mutating();
    } else if j == 9 {
        lemma_bit_of_nonmutating();
    } else if j == 10 {
        lemma_bit_of_lazy();
    } else if j == 11 {
        lemma_bit_of_weak();
    } else if j == 12 {
        lemma_bit_of_unowned();
    } else if j == 13 {
        lemma_bit_of_async();
    } else if j == 14 {
        lemma_bit_of_throws();
    } else if j == 15 {
        lemma_bit_of_rethrows();
    } else if j == 16 {
        lemma_bit_of_indirect();
    } else if j == 17 {
        lemma_bit_of_required();
    } else if j == 18 {
        lemma_bit_of_convenience();
    } else if j == 19 {
        lemma_bit_of_dynamic();
    } else if j == 20 {
        lemma_bit_of_optional();
    } else if j == 21 {
        lemma_bit_of_escaping();
    } else if j == 22 {
        lemma_bit_of_autoclosure();
    } else if j == 23 {
        lemma_bit_of_variadic();
    }
    assert(modifier_mask(seq![t[j].1@]) == modifier_mask(seq![t[j].1@].drop_last()) | modifier_bit(t[j].1@));
    assert(seq![t[j].1@].drop_last() =~= Seq::<Seq<char>>::empty());
    let bj = t[j].0;
    assert(0u32 | bj == bj) by (bit_vector);
    lemma_names_of_one_bit(j, t.len() as int);
    assert(t.subrange(0, t.len() as int) =~= t);
}

// ------------------------------------------------------------ integer literals

/// `s` with every `_` removed.
pub open spec fn without_underscores(s: Seq<char>) -> Seq<char>
    decreases s.len(),
{
    if s.len() == 0 {
        s
    } else if s.last() == '_' {
        without_underscores(s.drop_last())
    } else {
        without_underscores(s.drop_last()).push(s.last())
    }
}

/// The value of one digit in `radix` (letters in either case), if it is one.
pub open spec fn digit_value(c: char, radix: u32) -> Option<int> {
    let v: int = if '0' <= c && c <= '9' {
        c as int - '0' as int
    } else if 'a' <= c && c <= 'z' {
        c as int - 'a' as int + 10
    } else if 'A' <= c && c <= 'Z' {
        c as int - 'A' as int + 10
    } else {
        99
    };
    if v < radix {
        Some(v)
    } else {
        None
    }
}

/// The value of a nonempty run of digits in `radix`, if every one is a digit.
pub open spec fn digits_value(ds: Seq<char>, radix: u32) -> Option<int>
    decreases ds.len(),
{
    if ds.len() == 0 {
        Some(0)
    } else {
        match (digits_value(ds.drop_last(), radix), digit_value(ds.last(), radix)) {
            (Some(v), Some(d)) => Some(v * radix + d),
            _ => None,
        }
    }
}

/// What `i64::from_str_radix(src, radix)` returns: an optional sign, then at
/// least one digit, with the value inside `i64`.
pub open spec fn i64_from_radix(src: Seq<char>, radix: u32) -> Option<int> {
    let neg = src.len() > 0 && src[0] == '-';
    let ds = if src.len() > 0 && (src[0] == '-' || src[0] == '+') {
        src.drop_first()
    } else {
        src
    };
    if ds.len() == 0 {
        None
    } else {
        match digits_value(ds, radix) {
            Some(v) => {
                let value = if neg {
                    -v
                } else {
                    v
                };
                if i64::MIN <= value <= i64::MAX {
                    Some(value)
                } else {
                    None
                }
            },
            None => None,
        }
    }
}

/// Whether `s` begins with the two scalars `a`, `b`.
pub open spec fn has_prefix2(s: Seq<char>, a: char, b: char) -> bool {
    s.len() >= 2 && s[0] == a && s[1] == b
}

/// The magnitude that a literal's digits spell, before its own leading `-`
/// is applied: `(value, negative)`.
pub open spec fn int_literal_parts(text: Seq<char>) -> (Option<int>, bool) {
    let s = without_underscores(text);
    let negative = s.len() > 0 && s[0] == '-';
    let body = if negative {
        s.drop_first()
    } else {
        s
    };
    let value = if has_prefix2(body, '0', 'x') {
        i64_from_radix(body.skip(2), 16)
    } else if has_prefix2(body, '0', 'b') {
        i64_from_radix(body.skip(2), 2)
    } else if has_prefix2(body, '0', 'o') {
        i64_from_radix(body.skip(2), 8)
    } else {
        i64_from_radix(body, 10)
    };
    (value, negative)
}

/// The value of a Swift integer literal in any radix, honouring `_` digit
/// separators and a leading `-`.
pub open spec fn int_literal_value(text: Seq<char>) -> Option<int> {
    match int_literal_parts(text) {
        (Some(v), true) => Some(-v),
        (Some(v), false) => Some(v),
        (None, _) => None,
    }
}

/// Removing separators from two texts one after the other is removing them
/// from each.
proof fn lemma_without_underscores_append(a: Seq<char>, b: Seq<char>)
    ensures
        without_underscores(a + b) == without_underscores(a) + without_underscores(b),
    decreases b.len(),
{
    if b.len() == 0 {
        assert(a + b =~= a);
        assert(without_underscores(a) + without_underscores(b) =~= without_underscores(a));
    } else {
        assert((a + b).drop_last() =~= a + b.drop_last());
        assert((a + b).last() == b.last());
        lemma_without_underscores_append(a, b.drop_last());
        if b.last() != '_' {
            assert(without_underscores(a) + without_underscores(b.drop_last()).push(b.last()) =~= (
            without_underscores(a) + without_underscores(b.drop_last())).push(b.last()));
        }
    }
}

/// A text without separators keeps them away: removing them again changes
/// nothing.
proof fn lemma_without_underscores_twice(s: Seq<char>)
    ensures
        without_underscores(without_underscores(s)) == without_underscores(s),
    decreases s.len(),
{
    if s.len() > 0 {
        lemma_without_underscores_twice(s.drop_last());
        let w = without_underscores(s.drop_last());
        if s.last() != '_' {
            assert(w.push(s.last()).drop_last() =~= w);
        }
    }
}

/// Digit separators never change a literal's value: a literal reads as the
/// same literal with its `_` removed.
pub proof fn lemma_literal_value_ignores_separators(s: Seq<char>)
    ensures
        int_literal_value(s) == int_literal_value(without_underscores(s)),
{
    lemma_without_underscores_twice(s);
}

/// A text of decimal digits is its own text without separators.
proof fn lemma_decimal_digits_keep(d: Seq<char>)
    requires
        forall|i: int| 0 <= i < d.len() ==> '0' <= d[i] && d[i] <= '9',
    ensures
        without_underscores(d) == d,
    decreases d.len(),
{
    if d.len() > 0 {
        lemma_decimal_digits_keep(d.drop_last());
        assert(d.drop_last().push(d.last()) =~= d);
    }
}

/// A leading `-` negates a literal that starts with a digit: whatever value
/// the literal has, the `-` form has its negation.
pub proof fn lemma_literal_minus_negates(s: Seq<char>)
    requires
        s.len() > 0,
        '0' <= s[0] && s[0] <= '9',
        int_literal_value(s) is Some,
    ensures
        int_literal_value(seq!['-'] + s) == Some(-int_literal_value(s).unwrap()),
{
    lemma_without_underscores_append(seq!['-'], s);
    assert(without_underscores(seq!['-']) =~= seq!['-']) by {
        assert(seq!['-'].drop_last() =~= Seq::<char>::empty());
        assert(seq!['-'].last() == '-');
        assert(without_underscores(Seq::<char>::empty()) =~= Seq::<char>::empty());
    }
    let w = without_underscores(s);
    assert(s =~= seq![s[0]] + s.drop_first());
    lemma_without_underscores_append(seq![s[0]], s.drop_first());
    assert(without_underscores(seq![s[0]]) =~= seq![s[0]]) by {
        assert(seq![s[0]].drop_last() =~= Seq::<char>::empty());
        assert(seq![s[0]].last() == s[0]);
        assert(without_underscores(Seq::<char>::empty()) =~= Seq::<char>::empty());
    }
    assert(w[0] == s[0]);
    assert((seq!['-'] + w).drop_first() =~= w);
}

/// A decimal literal is positional: one more digit `k` after the digits `d`
/// gives ten times their value plus the digit's, while it fits in an `i64`.
pub proof fn lemma_decimal_literal_is_positional(d: Seq<char>, k: char)
    requires
        d.len() > 0,
        forall|i: int| 0 <= i < d.len() ==> '0' <= d[i] && d[i] <= '9',
        '0' <= k && k <= '9',
        int_literal_value(d.push(k)) is Some,
    ensures
        int_literal_value(d) is Some,
        int_literal_value(d.push(k)) == Some(10 * int_literal_value(d).unwrap() + (k as int - '0' as int)),
{
    let e = d.push(k);
    assert forall|i: int| 0 <= i < e.len() implies '0' <= e[i] && e[i] <= '9' by {
        if i < d.len() {
            assert(e[i] == d[i]);
        }
    }
    lemma_decimal_digits_keep(d);
    lemma_decimal_digits_keep(e);
    assert(e.drop_last() =~= d);
    assert(e[0] == d[0]);
    lemma_digits_value_nonneg(d, 10);
    assert(digits_value(e, 10) == Some(digits_value(d, 10).unwrap() * 10 + (k as int - '0' as int)));
}

proof fn lemma_digits_value_grows(ds: Seq<char>, radix: u32, k: int)
    requires
        2 <= radix <= 36,
        0 <= k <= ds.len(),
        digits_value(ds, radix) is Some,
    ensures
        digits_value(ds.subrange(0, k), radix) is Some,
        digits_value(ds.subrange(0, k), radix)->0 <= digits_value(ds, radix)->0,
        0 <= digits_value(ds.subrange(0, k), radix)->0,
    decreases ds.len(),
{
    assert(ds.subrange(0, ds.len() as int) =~= ds);
    if ds.len() > 0 {
        if k < ds.len() {
            lemma_digits_value_grows(ds.drop_last(), radix, k);
            assert(ds.drop_last().subrange(0, k) =~= ds.subrange(0, k));
            lemma_digits_value_nonneg(ds.drop_last(), radix);
            let v = digits_value(ds.drop_last(), radix)->0;
            let d = digit_value(ds.last(), radix)->0;
            assert(v <= v * radix + d) by (nonlinear_arith)
                requires
                    v >= 0,
                    radix >= 2,
                    d >= 0,
            ;
        } else {
            lemma_digits_value_nonneg(ds, radix);
        }
    }
}

proof fn lemma_digits_value_nonneg(ds: Seq<char>, radix: u32)
    requires
        2 <= radix <= 36,
        digits_value(ds, radix) is Some,
    ensures
        0 <= digits_value(ds, radix)->0,
    decreases ds.len(),
{
    if ds.len() > 0 {
        lemma_digits_value_nonneg(ds.drop_last(), radix);
        let v = digits_value(ds.drop_last(), radix)->0;
        assert(v * radix >= 0) by (nonlinear_arith)
            requires
                v >= 0,
                radix >= 2,
        ;
    }
}

fn digit_of(c: char, radix: u32) -> (r: Option<u64>)
    requires
        2 <= radix <= 36,
    ensures
        match digit_value(c, radix) {
            Some(v) => r == Some(v as u64),
            None => r is None,
        },
        r matches Some(d) ==> d < radix,
{
    let v: u32 = if c >= '0' && c <= '9' {
        (c as u32) - ('0' as u32)
    } else if c >= 'a' && c <= 'z' {
        (c as u32) - ('a' as u32) + 10
    } else if c >= 'A' && c <= 'Z' {
        (c as u32) - ('A' as u32) + 10
    } else {
        99
    };
    if v < radix {
        Some(v as u64)
    } else {
        None
    }
}

/// `i64::from_str_radix` over the scalars `s[start..]`.
fn from_radix(s: &Vec<char>, start: usize, radix: u32) -> (r: Option<i64>)
    requires
        start <= s@.len(),
        2 <= radix <= 36,
    ensures
        match i64_from_radix(s@.skip(start as int), radix) {
            Some(v) => r == Some(v as i64),
            None => r is None,
        },
{
    let ghost src = s@.skip(start as int);
    let neg = start < s.len() && s[start] == '-';
    let digits_start = if start < s.len() && (s[start] == '-' || s[start] == '+') {
        start + 1
    } else {
        start
    };
    let ghost ds = s@.skip(digits_start as int);
    assert(ds =~= (if src.len() > 0 && (src[0] == '-' || src[0] == '+') {
        src.drop_first()
    } else {
        src
    }));
    if digits_start >= s.len() {
        return None;
    }
    // The magnitude so far, while it stays at most `2^63`.
    let limit: u64 = 0x8000_0000_0000_0000;
    let mut acc: u64 = 0;
    let mut k = digits_start;
    while k < s.len()
        invariant
            digits_start <= k <= s@.len(),
            2 <= radix <= 36,
            ds == s@.skip(digits_start as int),
            acc <= limit,
            limit == 0x8000_0000_0000_0000u64,
            src == s@.skip(start as int),
            ds.len() > 0,
            ds =~= (if src.len() > 0 && (src[0] == '-' || src[0] == '+') {
                src.drop_first()
            } else {
                src
            }),
            neg == (src.len() > 0 && src[0] == '-'),
            digits_value(s@.subrange(digits_start as int, k as int), radix) == Some(acc as int),
        decreases s@.len() - k,
    {
        let d = match digit_of(s[k], radix) {
            Some(d) => d,
            None => {
                proof {
                    assert(s@.subrange(digits_start as int, k as int + 1).last() == s@[k as int]);
                    assert(s@.subrange(digits_start as int, k as int + 1).drop_last()
                        =~= s@.subrange(digits_start as int, k as int));
                    assert(digits_value(s@.subrange(digits_start as int, k as int + 1), radix)
                        is None);
                    if digits_value(ds, radix) is Some {
                        lemma_digits_value_grows(ds, radix, k - digits_start + 1);
                        assert(ds.subrange(0, k - digits_start + 1) =~= s@.subrange(
                            digits_start as int,
                            k as int + 1,
                        ));
                    }
                }
                return None;
            },
        };
        proof {
            assert(s@.subrange(digits_start as int, k as int + 1).last() == s@[k as int]);
            assert(s@.subrange(digits_start as int, k as int + 1).drop_last()
                =~= s@.subrange(digits_start as int, k as int));
        }
        if acc > (limit - d) / (radix as u64) {
            proof {
                let next = acc as int * radix + d;
                assert(next > limit) by (nonlinear_arith)
                    requires
                        acc > (limit - d) / (radix as int),
                        radix >= 2,
                        0 <= d < radix,
                        limit > d,
                        next == acc as int * radix + d,
                ;
                assert(digits_value(s@.subrange(digits_start as int, k as int + 1), radix)
                    == Some(next));
                if digits_value(ds, radix) is Some {
                    lemma_digits_value_grows(ds, radix, k - digits_start + 1);
                    assert(ds.subrange(0, k - digits_start + 1) =~= s@.subrange(
                        digits_start as int,
                        k as int + 1,
                    ));
                }
            }
            return None;
        }
        proof {
            assert(acc as int * radix + d <= limit) by (nonlinear_arith)
                requires
                    acc <= (limit - d) / (radix as int),
                    radix >= 2,
                    0 <= d < radix,
                    limit > d,
            ;
        }
        acc = acc * (radix as u64) + d;
        k += 1;
    }
    assert(s@.subrange(digits_start as int, s@.len() as int) =~= ds);
    if neg {
        if acc <= limit {
            let v: i64 = if acc == limit {
                i64::MIN
            } else {
                -(acc as i64)
            };
            return Some(v);
        }
        None
    } else {
        if acc < limit {
            Some(acc as i64)
        } else {
            None
        }
    }
}

/// Whether `s[k..]` begins with the two scalars `a`, `b`.
fn starts_with2(s: &Vec<char>, k: usize, a: char, b: char) -> (r: bool)
    requires
        k <= s@.len(),
    ensures
        r == has_prefix2(s@.skip(k as int), a, b),
{
    k < s.len() && k + 1 < s.len() && s[k] == a && s[k + 1] == b
}

/// Parse a Swift integer literal in any radix, honouring `_` digit separators
/// and a leading `-`.
pub fn parse_int_literal(text: &str) -> (r: Option<i64>)
    requires
        !(int_literal_parts(text@) == (Some(i64::MIN as int), true)),
    ensures
        match int_literal_value(text@) {
            Some(v) => r == Some(v as i64),
            None => r is None,
        },
{
    let raw = chars_of(text);
    let mut s: Vec<char> = Vec::new();
    let mut k: usize = 0;
    while k < raw.len()
        invariant
            k <= raw@.len(),
            s@ == without_underscores(raw@.subrange(0, k as int)),
        decreases raw@.len() - k,
    {
        proof {
            assert(raw@.subrange(0, k as int + 1).drop_last() =~= raw@.subrange(0, k as int));
        }
        if raw[k] != '_' {
            s.push(raw[k]);
        }
        k += 1;
    }
    assert(raw@.subrange(0, raw@.len() as int) =~= raw@);
    let negative = s.len() > 0 && s[0] == '-';
    let b: usize = if negative {
        1
    } else {
        0
    };
    let ghost body = s@.skip(b as int);
    assert(body =~= (if negative {
        s@.drop_first()
    } else {
        s@
    }));
    let value = if starts_with2(&s, b, '0', 'x') {
        assert(body.skip(2) =~= s@.skip(b + 2));
        from_radix(&s, b + 2, 16)
    } else if starts_with2(&s, b, '0', 'b') {
        assert(body.skip(2) =~= s@.skip(b + 2));
        from_radix(&s, b + 2, 2)
    } else if starts_with2(&s, b, '0', 'o') {
        assert(body.skip(2) =~= s@.skip(b + 2));
        from_radix(&s, b + 2, 8)
    } else {
        from_radix(&s, b, 10)
    };
    match value {
        Some(v) => if negative {
            Some(-v)
        } else {
            Some(v)
        },
        None => None,
    }
}

/// Removing separators never introduces a `-`.
proof fn lemma_no_minus_survives(s: Seq<char>)
    requires
        forall|i: int| 0 <= i < s.len() ==> s[i] != '-',
    ensures
        forall|j: int| 0 <= j < without_underscores(s).len() ==> without_underscores(s)[j] != '-',
    decreases s.len(),
{
    if s.len() > 0 {
        let t = s.drop_last();
        assert forall|i: int| 0 <= i < t.len() implies t[i] != '-' by {
            assert(t[i] == s[i]);
        }
        lemma_no_minus_survives(t);
        let w = without_underscores(s);
        if s.last() != '_' {
            assert(w == without_underscores(t).push(s.last()));
            assert forall|j: int| 0 <= j < w.len() implies w[j] != '-' by {
                if j < w.len() - 1 {
                    assert(w[j] == without_underscores(t)[j]);
                } else {
                    assert(s.last() == s[s.len() - 1]);
                }
            }
        } else {
            assert(w == without_underscores(t));
        }
    }
}

/// The value of an integer literal token. A token never starts with `-`
/// (a sign lexes as an operator), so a text holding one has no value here.
pub fn literal_int_value(text: &str) -> (r: Option<i64>)
    ensures
        (forall|i: int| 0 <= i < text@.len() ==> text@[i] != '-') ==> match int_literal_value(
            text@,
        ) {
            Some(v) => r == Some(v as i64),
            None => r is None,
        },
{
    let n = text.unicode_len();
    let mut k: usize = 0;
    while k < n
        invariant
            n == text@.len(),
            k <= n,
            forall|i: int| 0 <= i < k ==> text@[i] != '-',
        decreases n - k,
    {
        if text.get_char(k) == '-' {
            return None;
        }
        k += 1;
    }
    proof {
        lemma_no_minus_survives(text@);
    }
    parse_int_literal(text)
}

// -------------------------------------------------------------- float literals

/// How the text of a float literal splits before it is converted: the
/// decimal text that `str::parse::<f64>` reads, or the digits and binary
/// exponent of the hexadecimal form (`0x1.8p1`).
pub enum FloatForm {
    Decimal(String),
    Hex { int_digits: Vec<u32>, frac_digits: Vec<u32>, exponent: i32 },
}

/// A float literal's sign and form.
pub struct FloatParts {
    pub negative: bool,
    pub form: FloatForm,
}

/// The plain values of a [`FloatForm`].
pub enum FloatFormView {
    Decimal(Seq<char>),
    Hex(Seq<u32>, Seq<u32>, int),
}

impl View for FloatParts {
    type V = (bool, FloatFormView);

    open spec fn view(&self) -> (bool, FloatFormView) {
        (self.negative, match &self.form {
            FloatForm::Decimal(t) => FloatFormView::Decimal(t@),
            FloatForm::Hex { int_digits, frac_digits, exponent } => FloatFormView::Hex(
                int_digits@,
                frac_digits@,
                *exponent as int,
            ),
        })
    }
}

/// The index of the first character of `s` that is `a` or `b`, if any.
pub open spec fn first_index(s: Seq<char>, a: char, b: char) -> Option<int>
    decreases s.len(),
{
    if s.len() == 0 {
        None
    } else if s[0] == a || s[0] == b {
        Some(0)
    } else {
        match first_index(s.drop_first(), a, b) {
            Some(i) => Some(i + 1),
            None => None,
        }
    }
}

/// What `first_index` finds lies in `s` and is `a` or `b`.
proof fn lemma_first_index_bounds(s: Seq<char>, a: char, b: char)
    ensures
        first_index(s, a, b) matches Some(i) ==> 0 <= i < s.len() && (s[i] == a || s[i] == b),
    decreases s.len(),
{
    if s.len() > 0 && !(s[0] == a || s[0] == b) {
        lemma_first_index_bounds(s.drop_first(), a, b);
    }
}

/// The hexadecimal value of each of `ds`, if every one is a hex digit.
pub open spec fn hex_values(ds: Seq<char>) -> Option<Seq<u32>>
    decreases ds.len(),
{
    if ds.len() == 0 {
        Some(Seq::empty())
    } else {
        match (hex_values(ds.drop_last()), digit_value(ds.last(), 16)) {
            (Some(vs), Some(d)) => Some(vs.push(d as u32)),
            _ => None,
        }
    }
}

/// `str::parse::<i32>`: the text of an `i64` whose value fits in an `i32`.
pub open spec fn i32_text(s: Seq<char>) -> Option<int> {
    match crate::session::i64_text(s) {
        Some(v) => if i32::MIN <= v <= i32::MAX {
            Some(v)
        } else {
            None
        },
        None => None,
    }
}

/// The parts of a float literal's text: separators removed, a leading `-`
/// taken as the sign; after `0x`/`0X` the hexadecimal form, whose mantissa
/// runs to the first `p`/`P` and splits at its first `.`, and whose
/// exponent must read as an `i32` (no parts when either fails); any other
/// text is the decimal form.
pub open spec fn float_parts(text: Seq<char>) -> Option<(bool, FloatFormView)> {
    let s = without_underscores(text);
    let negative = s.len() > 0 && s[0] == '-';
    let body = if negative {
        s.drop_first()
    } else {
        s
    };
    if body.len() >= 2 && body[0] == '0' && (body[1] == 'x' || body[1] == 'X') {
        let rest = body.skip(2);
        match first_index(rest, 'p', 'P') {
            None => None,
            Some(p) => {
                let m = rest.take(p);
                match i32_text(rest.skip(p + 1)) {
                    None => None,
                    Some(x) => {
                        let (ip, fp) = match first_index(m, '.', '.') {
                            Some(d) => (m.take(d), m.skip(d + 1)),
                            None => (m, Seq::<char>::empty()),
                        };
                        match (hex_values(ip), hex_values(fp)) {
                            (Some(a), Some(b)) => Some((negative, FloatFormView::Hex(a, b, x))),
                            _ => None,
                        }
                    },
                }
            },
        }
    } else {
        Some((negative, FloatFormView::Decimal(body)))
    }
}

/// The index of the first of `a` or `b` in `v` from `k` on, as an offset
/// from `k`.
fn find_either(v: &Vec<char>, k: usize, a: char, b: char) -> (r: Option<usize>)
    requires
        k <= v@.len(),
    ensures
        match first_index(v@.skip(k as int), a, b) {
            Some(i) => r == Some(i as usize) && k + i < v@.len(),
            None => r is None,
        },
    decreases v@.len() - k,
{
    let ghost t = v@.skip(k as int);
    proof {
        lemma_first_index_bounds(t, a, b);
        lemma_first_index_bounds(v@.skip(k + 1), a, b);
    }
    if k == v.len() {
        assert(t.len() == 0);
        return None;
    }
    assert(t.len() > 0 && t[0] == v@[k as int]);
    assert(t.drop_first() =~= v@.skip(k + 1));
    if v[k] == a || v[k] == b {
        return Some(0);
    }
    let rec = find_either(v, k + 1, a, b);
    match rec {
        Some(i) => {
            assert(k + 1 + i < v@.len());
            Some(i + 1)
        },
        None => None,
    }
}

/// The hexadecimal values of `v[lo..hi]`, if every one is a hex digit.
fn hex_digit_values(v: &Vec<char>, lo: usize, hi: usize) -> (r: Option<Vec<u32>>)
    requires
        lo <= hi <= v@.len(),
    ensures
        match hex_values(v@.subrange(lo as int, hi as int)) {
            Some(vs) => r matches Some(w) && w@ == vs,
            None => r is None,
        },
{
    let mut out: Vec<u32> = Vec::new();
    let mut j = lo;
    assert(v@.subrange(lo as int, lo as int) =~= Seq::<char>::empty());
    while j < hi
        invariant
            lo <= j <= hi <= v@.len(),
            hex_values(v@.subrange(lo as int, j as int)) == Some(out@),
        decreases hi - j,
    {
        assert(v@.subrange(lo as int, j + 1).drop_last() =~= v@.subrange(lo as int, j as int));
        assert(v@.subrange(lo as int, j + 1).last() == v@[j as int]);
        match digit_of(v[j], 16) {
            Some(d) => {
                out.push(d as u32);
            },
            None => {
                proof {
                    lemma_hex_values_stay_none(v@.subrange(lo as int, hi as int), j - lo);
                }
                return None;
            },
        }
        j += 1;
    }
    Some(out)
}

/// Once a prefix has a non-digit, every longer prefix has one too.
proof fn lemma_hex_values_stay_none(s: Seq<char>, k: int)
    requires
        0 <= k < s.len(),
        digit_value(s[k], 16) is None,
    ensures
        hex_values(s) is None,
    decreases s.len(),
{
    if k < s.len() - 1 {
        assert(s.drop_last()[k] == s[k]);
        lemma_hex_values_stay_none(s.drop_last(), k);
    }
}

/// Split the text of a float literal into its sign and form (see
/// [`float_parts`]).
#[verifier::spinoff_prover]
#[verifier::rlimit(50)]
pub fn float_literal_parts(text: &str) -> (r: Option<FloatParts>)
    ensures
        match float_parts(text@) {
            Some(p) => r matches Some(q) && q@ == p,
            None => r is None,
        },
{
    let raw = chars_of(text);
    let mut s: Vec<char> = Vec::new();
    let mut k: usize = 0;
    while k < raw.len()
        invariant
            k <= raw@.len(),
            s@ == without_underscores(raw@.subrange(0, k as int)),
        decreases raw@.len() - k,
    {
        proof {
            assert(raw@.subrange(0, k as int + 1).drop_last() =~= raw@.subrange(0, k as int));
        }
        if raw[k] != '_' {
            s.push(raw[k]);
        }
        k += 1;
    }
    assert(raw@.subrange(0, raw@.len() as int) =~= raw@);
    let negative = s.len() > 0 && s[0] == '-';
    let b: usize = if negative {
        1
    } else {
        0
    };
    let ghost body = s@.skip(b as int);
    assert(body =~= (if negative {
        s@.drop_first()
    } else {
        s@
    }));
    let n = s.len();
    let hex = b + 1 < n && s[b] == '0' && (s[b + 1] == 'x' || s[b + 1] == 'X');
    if !hex {
        let t = crate::text::string_from_chars(&s, b, n);
        assert(s@.subrange(b as int, n as int) =~= body);
        return Some(FloatParts { negative, form: FloatForm::Decimal(t) });
    }
    let start = b + 2;
    let ghost rest = body.skip(2);
    assert(rest =~= s@.skip(start as int));
    proof {
        lemma_first_index_bounds(rest, 'p', 'P');
        lemma_first_index_bounds(rest, '.', '.');
    }
    let p = match find_either(&s, start, 'p', 'P') {
        Some(p) => p,
        None => {
            return None;
        },
    };
    let ghost m = rest.take(p as int);
    let exp_text = crate::text::string_from_chars(&s, start + p + 1, n);
    assert(s@.subrange(start + p + 1, n as int) =~= rest.skip(p + 1));
    let exponent: i32 = match crate::session::parse_i64(exp_text.as_str()) {
        Some(x) => if -2147483648 <= x && x <= 2147483647 {
            x as i32
        } else {
            return None;
        },
        None => {
            return None;
        },
    };
    let mend = start + p;
    assert(m =~= s@.subrange(start as int, mend as int));
    let (int_digits, frac_digits) = match find_either(&s, start, '.', '.') {
        Some(d) if d < p => {
            proof {
                assert(s@.skip(start as int).take(p as int) =~= m);
                lemma_first_index_prefix(s@.skip(start as int), p as int, '.', '.');
            }
            assert(m.take(d as int) =~= s@.subrange(start as int, (start + d) as int));
            assert(m.skip(d + 1) =~= s@.subrange((start + d + 1) as int, mend as int));
            (hex_digit_values(&s, start, start + d), hex_digit_values(&s, start + d + 1, mend))
        },
        _ => {
            proof {
                assert(s@.skip(start as int).take(p as int) =~= m);
                lemma_first_index_prefix(s@.skip(start as int), p as int, '.', '.');
            }
            assert(Seq::<char>::empty() =~= s@.subrange(mend as int, mend as int));
            (hex_digit_values(&s, start, mend), hex_digit_values(&s, mend, mend))
        },
    };
    match (int_digits, frac_digits) {
        (Some(a), Some(c)) => Some(
            FloatParts { negative, form: FloatForm::Hex { int_digits: a, frac_digits: c, exponent } },
        ),
        _ => None,
    }
}

/// Where the first of `a`/`b` lies within a prefix, it is found there; past
/// the prefix it is not in the prefix at all.
proof fn lemma_first_index_prefix(s: Seq<char>, p: int, a: char, b: char)
    requires
        0 <= p <= s.len(),
    ensures
        match first_index(s, a, b) {
            Some(i) => if i < p {
                first_index(s.take(p), a, b) == Some(i)
            } else {
                first_index(s.take(p), a, b) is None
            },
            None => first_index(s.take(p), a, b) is None,
        },
    decreases p,
{
    let t = s.take(p);
    lemma_first_index_bounds(s, a, b);
    lemma_first_index_bounds(s.drop_first(), a, b);
    if p > 0 {
        assert(t.len() > 0 && t[0] == s[0]);
        assert(t.drop_first() =~= s.drop_first().take(p - 1));
        if !(s[0] == a || s[0] == b) {
            lemma_first_index_prefix(s.drop_first(), p - 1, a, b);
        }
    } else {
        assert(t.len() == 0);
    }
}

} // verus!
