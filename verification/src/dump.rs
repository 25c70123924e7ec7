//! Textual renderings of a syntax subtree: the indented outline that
//! `tswift --dump` prints, and the structured JSON form for tooling.
use vstd::prelude::*;
use crate::decode::{flag_table, names_set_in};
use crate::syntax::{kind_debug, kind_name, Node, NodeKind, NodeView};
use crate::text::{decimal, push_char, push_decimal, str_debug_string, str_debug_text};

verus! {

/// Two spaces per level of depth.
pub open spec fn indent(depth: nat) -> Seq<char>
    decreases depth,
{
    if depth == 0 {
        Seq::empty()
    } else {
        indent((depth - 1) as nat) + "  "@
    }
}

/// The texts of `v`.
pub open spec fn strs_view(v: Seq<&'static str>) -> Seq<Seq<char>> {
    v.map_values(|s: &'static str| s@)
}

/// `parts` joined by `sep`.
pub open spec fn joined(parts: Seq<Seq<char>>, sep: Seq<char>) -> Seq<char>
    decreases parts.len(),
{
    if parts.len() == 0 {
        Seq::empty()
    } else if parts.len() == 1 {
        parts[0]
    } else {
        joined(parts.drop_last(), sep) + sep + parts.last()
    }
}

/// The names of the modifier flags set on `n`.
pub open spec fn mod_names(n: NodeView) -> Seq<Seq<char>> {
    strs_view(names_set_in(flag_table(), n.modifiers))
}

/// ` "text"`, debug-quoted, when `text` is present and non-empty.
pub open spec fn outline_text(text: Option<Seq<char>>) -> Seq<char> {
    match text {
        Some(t) => if t.len() > 0 {
            " "@ + str_debug_text(t)
        } else {
            Seq::empty()
        },
        None => Seq::empty(),
    }
}

/// ` L<line>` when the line is known (non-zero).
pub open spec fn outline_line(line: u32) -> Seq<char> {
    if line > 0 {
        " L"@ + decimal(line as nat)
    } else {
        Seq::empty()
    }
}

/// ` :<type>` when a type was recorded.
pub open spec fn outline_type(ty: Option<Seq<char>>) -> Seq<char> {
    match ty {
        Some(t) => " :"@ + t,
        None => Seq::empty(),
    }
}

/// ` [m1,m2]` when any modifier name is given.
pub open spec fn outline_mods(names: Seq<Seq<char>>) -> Seq<char> {
    if names.len() > 0 {
        " ["@ + joined(names, ","@) + "]"@
    } else {
        Seq::empty()
    }
}

/// One outline line without its indentation and newline: the kind's debug
/// name, then its text, line, type and modifier parts.
pub open spec fn outline_head(n: NodeView) -> Seq<char> {
    kind_debug(n.kind) + outline_text(n.text) + outline_line(n.line) + outline_type(n.type_text)
        + outline_mods(mod_names(n))
}

/// The outline of node `c` at `depth`: its own line, then each child's
/// outline one level deeper.
pub open spec fn outline(nodes: Seq<NodeView>, c: int, depth: nat) -> Seq<char>
    decreases c, 1int, 0int,
{
    indent(depth) + outline_head(nodes[c]) + "\n"@ + outline_all(nodes, nodes[c].children, c, depth + 1)
}

/// The outlines of `kids` (children of `parent`), one after another.
pub open spec fn outline_all(nodes: Seq<NodeView>, kids: Seq<usize>, parent: int, depth: nat) -> Seq<char>
    decreases parent, 0int, kids.len(),
{
    if kids.len() == 0 {
        Seq::empty()
    } else {
        let c = kids.last() as int;
        let rest = outline_all(nodes, kids.drop_last(), parent, depth);
        if 0 <= c < parent {
            rest + outline(nodes, c, depth)
        } else {
            rest
        }
    }
}

/// The JSON escape of one scalar: `"`, `\\`, newline, tab and carriage return
/// are backslash-escaped; every other scalar stands for itself.
pub open spec fn json_escape_char(c: char) -> Seq<char> {
    if c == '"' {
        "\\\""@
    } else if c == '\\' {
        "\\\\"@
    } else if c == '\n' {
        "\\n"@
    } else if c == '\t' {
        "\\t"@
    } else if c == '\r' {
        "\\r"@
    } else {
        seq![c]
    }
}

/// The escaped scalars of `s`.
pub open spec fn json_escaped(s: Seq<char>) -> Seq<char>
    decreases s.len(),
{
    if s.len() == 0 {
        Seq::empty()
    } else {
        json_escaped(s.drop_last()) + json_escape_char(s.last())
    }
}

/// `s` as a JSON string literal.
pub open spec fn json_quoted(s: Seq<char>) -> Seq<char> {
    "\""@ + json_escaped(s) + "\""@
}

/// The quoted strings `parts`, comma-separated.
pub open spec fn json_list(parts: Seq<Seq<char>>) -> Seq<char>
    decreases parts.len(),
{
    if parts.len() == 0 {
        Seq::empty()
    } else if parts.len() == 1 {
        json_quoted(parts[0])
    } else {
        json_list(parts.drop_last()) + ","@ + json_quoted(parts.last())
    }
}

/// `,"raw":<n>` for an unrecognised kind.
pub open spec fn json_raw(k: NodeKind) -> Seq<char> {
    match k {
        NodeKind::Other(r) => ",\"raw\":"@ + decimal(r as nat),
        _ => Seq::empty(),
    }
}

/// `,"text":"..."` when `text` is present and non-empty.
pub open spec fn json_text(text: Option<Seq<char>>) -> Seq<char> {
    match text {
        Some(t) => if t.len() > 0 {
            ",\"text\":"@ + json_quoted(t)
        } else {
            Seq::empty()
        },
        None => Seq::empty(),
    }
}

/// `,"line":<line>` when the line is known (non-zero).
pub open spec fn json_line(line: u32) -> Seq<char> {
    if line > 0 {
        ",\"line\":"@ + decimal(line as nat)
    } else {
        Seq::empty()
    }
}

/// `,"type":"..."` when a type was recorded.
pub open spec fn json_type(ty: Option<Seq<char>>) -> Seq<char> {
    match ty {
        Some(t) => ",\"type\":"@ + json_quoted(t),
        None => Seq::empty(),
    }
}

/// `,"modifiers":[...]` when any modifier name is given.
pub open spec fn json_mods(names: Seq<Seq<char>>) -> Seq<char> {
    if names.len() > 0 {
        ",\"modifiers\":["@ + json_list(names) + "]"@
    } else {
        Seq::empty()
    }
}

/// The fields of node `n` before its children: `kind`, then `raw`, `text`,
/// `line`, `type` and `modifiers` where they apply.
pub open spec fn json_head(n: NodeView) -> Seq<char> {
    "{\"kind\":\""@ + kind_name(n.kind) + "\""@ + json_raw(n.kind) + json_text(n.text) + json_line(
        n.line,
    ) + json_type(n.type_text) + json_mods(mod_names(n))
}

/// The JSON object for node `c`; a `children` array appears only when the
/// node has children.
pub open spec fn json_of(nodes: Seq<NodeView>, c: int) -> Seq<char>
    decreases c, 1int, 0int,
{
    json_head(nodes[c]) + (if nodes[c].children.len() > 0 {
        ",\"children\":["@ + json_all(nodes, nodes[c].children, c) + "]"@
    } else {
        Seq::empty()
    }) + "}"@
}

/// The JSON objects of `kids` (children of `parent`), comma-separated.
pub open spec fn json_all(nodes: Seq<NodeView>, kids: Seq<usize>, parent: int) -> Seq<char>
    decreases parent, 0int, kids.len(),
{
    if kids.len() == 0 {
        Seq::empty()
    } else {
        let c = kids.last() as int;
        let rest = json_all(nodes, kids.drop_last(), parent);
        let sep = if kids.len() > 1 {
            ","@
        } else {
            Seq::empty()
        };
        if 0 <= c < parent {
            rest + sep + json_of(nodes, c)
        } else {
            rest + sep
        }
    }
}

/// `s` as a JSON string literal, with minimal escaping.
pub fn json_string(s: &str) -> (r: String)
    ensures
        r@ == json_quoted(s@),
{
    let mut out = String::new();
    push_char(&mut out, '"');
    let ghost sv = s@;
    let mut k: usize = 0;
    let n = s.unicode_len();
    proof {
        reveal_strlit("\"");
        assert(sv.take(0) =~= Seq::<char>::empty());
        assert(out@ =~= "\""@ + json_escaped(sv.take(0)));
    }
    while k < n
        invariant
            n == sv.len(),
            sv == s@,
            k <= n,
            out@ == "\""@ + json_escaped(sv.take(k as int)),
        decreases n - k,
    {
        let c = s.get_char(k);
        assert(sv.take(k as int + 1).drop_last() =~= sv.take(k as int));
        assert(sv.take(k as int + 1).last() == c);
        if c == '"' {
            out.append("\\\"");
        } else if c == '\\' {
            out.append("\\\\");
        } else if c == '\n' {
            out.append("\\n");
        } else if c == '\t' {
            out.append("\\t");
        } else if c == '\r' {
            out.append("\\r");
        } else {
            push_char(&mut out, c);
        }
        proof {
            reveal_strlit("\\\"");
            reveal_strlit("\\\\");
            reveal_strlit("\\n");
            reveal_strlit("\\t");
            reveal_strlit("\\r");
            assert(out@ =~= "\""@ + json_escaped(sv.take(k as int + 1)));
        }
        k += 1;
    }
    assert(sv.take(n as int) =~= sv);
    push_char(&mut out, '"');
    proof {
        assert(out@ =~= json_quoted(s@));
    }
    out
}

/// Append `names` joined by `,`.
fn push_joined(out: &mut String, names: &Vec<&'static str>)
    ensures
        final(out)@ == old(out)@ + joined(strs_view(names@), ","@),
{
    let ghost pv = strs_view(names@);
    let ghost base = out@;
    let mut k: usize = 0;
    assert(pv.take(0) =~= Seq::<Seq<char>>::empty());
    assert(out@ =~= base + joined(pv.take(0), ","@));
    while k < names.len()
        invariant
            k <= names@.len(),
            pv == strs_view(names@),
            out@ == base + joined(pv.take(k as int), ","@),
        decreases names@.len() - k,
    {
        assert(pv.take(k as int + 1).drop_last() =~= pv.take(k as int));
        assert(pv.take(k as int + 1).last() == names@[k as int]@);
        if k > 0 {
            out.append(",");
        } else {
            assert(pv.take(1).len() == 1);
        }
        out.append(names[k]);
        k += 1;
        assert(out@ =~= base + joined(pv.take(k as int), ","@));
    }
    assert(pv.take(names@.len() as int) =~= pv);
}

/// Append `names` as comma-separated JSON strings.
fn push_json_list(out: &mut String, names: &Vec<&'static str>)
    ensures
        final(out)@ == old(out)@ + json_list(strs_view(names@)),
{
    let ghost pv = strs_view(names@);
    let ghost base = out@;
    let mut k: usize = 0;
    assert(pv.take(0) =~= Seq::<Seq<char>>::empty());
    assert(out@ =~= base + json_list(pv.take(0)));
    while k < names.len()
        invariant
            k <= names@.len(),
            pv == strs_view(names@),
            out@ == base + json_list(pv.take(k as int)),
        decreases names@.len() - k,
    {
        assert(pv.take(k as int + 1).drop_last() =~= pv.take(k as int));
        assert(pv.take(k as int + 1).last() == names@[k as int]@);
        if k > 0 {
            out.append(",");
        } else {
            assert(pv.take(1).len() == 1);
        }
        let q = json_string(names[k]);
        out.append(q.as_str());
        k += 1;
        assert(out@ =~= base + json_list(pv.take(k as int)));
    }
    assert(pv.take(names@.len() as int) =~= pv);
}

/// Append the outline's text part for `t`.
fn push_outline_text(out: &mut String, t: &Option<String>)
    ensures
        final(out)@ == old(out)@ + outline_text(crate::syntax::opt_view(*t)),
{
    match t {
        Some(t) => {
            if t.as_str().unicode_len() > 0 {
                out.append(" ");
                let q = str_debug_string(t.as_str());
                out.append(q.as_str());
            }
        },
        None => {},
    }
}

/// Append the JSON text field for `t`.
fn push_json_text(out: &mut String, t: &Option<String>)
    ensures
        final(out)@ == old(out)@ + json_text(crate::syntax::opt_view(*t)),
{
    match t {
        Some(t) => {
            if t.as_str().unicode_len() > 0 {
                out.append(",\"text\":");
                let q = json_string(t.as_str());
                out.append(q.as_str());
            }
        },
        None => {},
    }
}

/// Append the outline's line part for `line`.
fn push_outline_line(out: &mut String, line: u32)
    ensures
        final(out)@ == old(out)@ + outline_line(line),
{
    if line > 0 {
        out.append(" L");
        push_decimal(out, line as u64);
    }
}

/// Append the outline's type part for `ty`.
fn push_outline_type(out: &mut String, ty: &Option<String>)
    ensures
        final(out)@ == old(out)@ + outline_type(crate::syntax::opt_view(*ty)),
{
    match ty {
        Some(ty) => {
            out.append(" :");
            out.append(ty.as_str());
        },
        None => {},
    }
}

/// Append the outline's modifier part for `mods`.
fn push_outline_mods(out: &mut String, mods: &Vec<&'static str>)
    ensures
        final(out)@ == old(out)@ + outline_mods(strs_view(mods@)),
{
    if mods.len() > 0 {
        out.append(" [");
        push_joined(out, mods);
        out.append("]");
    }
}

/// Append the JSON raw-kind field for `k`.
fn push_json_raw(out: &mut String, k: NodeKind)
    ensures
        final(out)@ == old(out)@ + json_raw(k),
{
    match k {
        NodeKind::Other(r) => {
            out.append(",\"raw\":");
            push_decimal(out, r as u64);
        },
        _ => {},
    }
}

/// Append the JSON line field for `line`.
fn push_json_line(out: &mut String, line: u32)
    ensures
        final(out)@ == old(out)@ + json_line(line),
{
    if line > 0 {
        out.append(",\"line\":");
        push_decimal(out, line as u64);
    }
}

/// Append the JSON type field for `ty`.
fn push_json_type(out: &mut String, ty: &Option<String>)
    ensures
        final(out)@ == old(out)@ + json_type(crate::syntax::opt_view(*ty)),
{
    match ty {
        Some(ty) => {
            out.append(",\"type\":");
            let q = json_string(ty.as_str());
            out.append(q.as_str());
        },
        None => {},
    }
}

/// Append the JSON modifiers field for `mods`.
fn push_json_mods(out: &mut String, mods: &Vec<&'static str>)
    ensures
        final(out)@ == old(out)@ + json_mods(strs_view(mods@)),
{
    if mods.len() > 0 {
        out.append(",\"modifiers\":[");
        push_json_list(out, mods);
        out.append("]");
    }
}

impl<'a> Node<'a> {
    #[verifier::spinoff_prover]
    #[verifier::rlimit(50)]
    fn push_outline_head(&self, out: &mut String)
        requires
            self.wf(),
        ensures
            final(out)@ == old(out)@ + outline_head(self.data()),
    {
        let ghost n = self.data();
        let ghost base = out@;
        let kn = self.kind().debug_name();
        out.append(kn.as_str());
        let ghost s1 = out@;
        let t = self.text();
        push_outline_text(out, &t);
        let ghost s2 = out@;
        let line = self.line();
        push_outline_line(out, line);
        let ghost s3 = out@;
        let ty = self.type_text();
        push_outline_type(out, &ty);
        let ghost s4 = out@;
        let mods = self.modifier_names();
        push_outline_mods(out, &mods);
        proof {
            let a = kind_debug(n.kind);
            let b = outline_text(n.text);
            let c = outline_line(n.line);
            let d = outline_type(n.type_text);
            let e = outline_mods(mod_names(n));
            assert(s1 == base + a);
            assert(s2 == s1 + b);
            assert(s3 == s2 + c);
            assert(s4 == s3 + d);
            assert(out@ == s4 + e);
            assert(out@ =~= base + (a + b + c + d + e));
        }
    }

    #[verifier::spinoff_prover]
    #[verifier::rlimit(50)]
    fn push_json_head(&self, out: &mut String)
        requires
            self.wf(),
        ensures
            final(out)@ == old(out)@ + json_head(self.data()),
    {
        let ghost n = self.data();
        let ghost base = out@;
        let k = self.kind();
        out.append("{\"kind\":\"");
        out.append(k.name());
        out.append("\"");
        let ghost s0 = out@;
        push_json_raw(out, k);
        let ghost s1 = out@;
        let t = self.text();
        push_json_text(out, &t);
        let ghost s2 = out@;
        let line = self.line();
        push_json_line(out, line);
        let ghost s3 = out@;
        let ty = self.type_text();
        push_json_type(out, &ty);
        let ghost s4 = out@;
        let mods = self.modifier_names();
        push_json_mods(out, &mods);
        proof {
            let h = "{\"kind\":\""@ + kind_name(n.kind) + "\""@;
            let r = json_raw(n.kind);
            let b = json_text(n.text);
            let c = json_line(n.line);
            let d = json_type(n.type_text);
            let e = json_mods(mod_names(n));
            assert(s0 =~= base + h);
            assert(s1 == s0 + r);
            assert(s2 == s1 + b);
            assert(s3 == s2 + c);
            assert(s4 == s3 + d);
            assert(out@ == s4 + e);
            assert(out@ =~= base + (h + r + b + c + d + e));
        }
    }

    /// An indented, human-readable outline of this subtree: one line per
    /// node (see [`outline_head`]), children indented two spaces deeper.
    pub fn dump(&self) -> (r: String)
        requires
            self.wf(),
        ensures
            r@ == outline(self.tree(), self.id() as int, 0),
    {
        proof {
            self.lemma_id_bound();
        }
        let mut out = String::new();
        self.dump_into(&mut out, 0);
        assert(out@ =~= outline(self.tree(), self.id() as int, 0));
        out
    }

    fn dump_into(&self, out: &mut String, depth: usize)
        requires
            self.wf(),
            depth + self.id() < usize::MAX,
        ensures
            final(out)@ == old(out)@ + outline(self.tree(), self.id() as int, depth as nat),
        decreases self.id(),
    {
        proof {
            self.lemma_children_below();
        }
        let ghost n = self.data();
        let ghost nodes = self.tree();
        let ghost base = out@;
        let mut i: usize = 0;
        assert(out@ =~= base + indent(0));
        while i < depth
            invariant
                i <= depth,
                out@ == base + indent(i as nat),
            decreases depth - i,
        {
            out.append("  ");
            i += 1;
            assert(out@ =~= base + indent(i as nat));
        }
        let ghost at_head = out@;
        self.push_outline_head(out);
        assert(out@ =~= base + indent(depth as nat) + outline_head(n));
        out.append("\n");
        let ghost mid = out@;
        let kids = self.child_vec();
        let ghost ch = n.children;
        let ghost me = self.id() as int;
        let mut j: usize = 0;
        assert(out@ =~= mid + outline_all(nodes, ch.take(0), me, depth as nat + 1));
        while j < kids.len()
            invariant
                kids@.len() == ch.len(),
                j <= kids@.len(),
                ch == n.children,
                nodes == self.tree(),
                n == self.data(),
                me == self.id() as int,
                depth + self.id() < usize::MAX,
                forall|i: int| 0 <= i < ch.len() ==> (#[trigger] ch[i] as int) < me,
                forall|i: int|
                    0 <= i < kids@.len() ==> #[trigger] kids@[i].wf() && kids@[i].id() == ch[i]
                        && kids@[i].tree() == nodes,
                out@ == mid + outline_all(nodes, ch.take(j as int), me, depth as nat + 1),
            decreases kids@.len() - j,
        {
            let child = kids[j];
            assert(kids@[j as int].wf());
            assert(ch.take(j as int + 1).drop_last() =~= ch.take(j as int));
            assert(ch.take(j as int + 1).last() == ch[j as int]);
            assert((ch[j as int] as int) < me);
            child.dump_into(out, depth + 1);
            j += 1;
            assert(out@ =~= mid + outline_all(nodes, ch.take(j as int), me, depth as nat + 1));
        }
        assert(ch.take(kids@.len() as int) =~= ch);
        assert(out@ =~= base + outline(nodes, me, depth as nat));
    }

    /// A structured JSON rendering of this subtree (kind, text, line, type,
    /// modifiers, children), for tooling that reads the tree's shape.
    pub fn dump_json(&self) -> (r: String)
        requires
            self.wf(),
        ensures
            r@ == json_of(self.tree(), self.id() as int),
    {
        let mut out = String::new();
        self.dump_json_into(&mut out);
        assert(out@ =~= json_of(self.tree(), self.id() as int));
        out
    }

    fn dump_json_into(&self, out: &mut String)
        requires
            self.wf(),
        ensures
            final(out)@ == old(out)@ + json_of(self.tree(), self.id() as int),
        decreases self.id(),
    {
        proof {
            self.lemma_children_below();
        }
        let ghost n = self.data();
        let ghost nodes = self.tree();
        let ghost base = out@;
        self.push_json_head(out);
        assert(out@ =~= base + json_head(n));
        let ghost head_end = out@;
        let kids = self.child_vec();
        let ghost ch = n.children;
        let ghost me = self.id() as int;
        if kids.len() > 0 {
            out.append(",\"children\":[");
            let ghost mid = out@;
            let mut j: usize = 0;
            assert(out@ =~= mid + json_all(nodes, ch.take(0), me));
            while j < kids.len()
                invariant
                    kids@.len() == ch.len(),
                    j <= kids@.len(),
                    ch == n.children,
                    nodes == self.tree(),
                    me == self.id() as int,
                    forall|i: int| 0 <= i < ch.len() ==> (#[trigger] ch[i] as int) < me,
                    forall|i: int|
                        0 <= i < kids@.len() ==> #[trigger] kids@[i].wf() && kids@[i].id() == ch[i]
                            && kids@[i].tree() == nodes,
                    out@ == mid + json_all(nodes, ch.take(j as int), me),
                decreases kids@.len() - j,
            {
                let child = kids[j];
                assert(kids@[j as int].wf());
                assert(ch.take(j as int + 1).drop_last() =~= ch.take(j as int));
                assert(ch.take(j as int + 1).last() == ch[j as int]);
                assert((ch[j as int] as int) < me);
                if j > 0 {
                    out.append(",");
                }
                child.dump_json_into(out);
                j += 1;
                assert(out@ =~= mid + json_all(nodes, ch.take(j as int), me));
            }
            assert(ch.take(kids@.len() as int) =~= ch);
            out.append("]");
        }
        out.append("}");
        assert(out@ =~= base + json_of(nodes, me));
    }
}

} // verus!
