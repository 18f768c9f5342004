//! A minimal two-space-indent HCL writer. Every write is recorded as an
//! operation; the buffer always holds exactly what the recorded operations
//! render to, so callers reason about documents as operation lists.

use vstd::prelude::*;

use crate::text::push_char;
use crate::{Resource, ResourceView};

verus! {

/// One write to an HCL document.
pub enum HclOp {
    /// Indentation alone.
    Pad,
    /// An indented line.
    Line(Seq<char>),
    /// An indented `# ...` comment line.
    Comment(Seq<char>),
    /// An indented `key = value` line.
    Attr(Seq<char>, Seq<char>),
    /// An indented `header {` line; the indent steps in.
    Open(Seq<char>),
    /// The indent steps out (never below zero), then an indented `}` line.
    Close,
    /// An empty line.
    Blank,
}

/// Two spaces per indent level.
pub open spec fn spaces(n: nat) -> Seq<char>
    decreases n,
{
    if n == 0 {
        Seq::empty()
    } else {
        spaces((n - 1) as nat) + "  "@
    }
}

/// The text one operation writes at indent `i`, and the indent after it.
pub open spec fn step(op: HclOp, i: nat) -> (Seq<char>, nat) {
    match op {
        HclOp::Pad => (spaces(i), i),
        HclOp::Line(s) => (spaces(i) + s + "\n"@, i),
        HclOp::Comment(s) => (spaces(i) + "# "@ + s + "\n"@, i),
        HclOp::Attr(k, v) => (spaces(i) + k + " = "@ + v + "\n"@, i),
        HclOp::Open(h) => (spaces(i) + h + " {\n"@, i + 1),
        HclOp::Close => {
            let j: nat = if i == 0 {
                0
            } else {
                (i - 1) as nat
            };
            (spaces(j) + "}\n"@, j)
        },
        HclOp::Blank => ("\n"@, i),
    }
}

/// The text a list of operations writes from indent zero, and the final indent.
pub open spec fn run(ops: Seq<HclOp>) -> (Seq<char>, nat)
    decreases ops.len(),
{
    if ops.len() == 0 {
        (Seq::empty(), 0)
    } else {
        let prev = run(ops.drop_last());
        let next = step(ops.last(), prev.1);
        (prev.0 + next.0, next.1)
    }
}

/// The text of a document.
pub open spec fn render(ops: Seq<HclOp>) -> Seq<char> {
    run(ops).0
}

/// The standard `tags` block of a resource: the diagram-to-HCL correlation key
/// plus the human-facing name.
pub open spec fn tags_ops(r: ResourceView) -> Seq<HclOp> {
    seq![
        HclOp::Open("tags ="@),
        HclOp::Attr("\"strata:id\""@, spec_quote(r.id)),
        HclOp::Attr("Name"@, spec_quote(r.label)),
        HclOp::Close,
    ]
}

// ---------------------------------------------------------------------------
// Literals and names
// ---------------------------------------------------------------------------

/// The escape of one character inside a double-quoted HCL literal.
pub open spec fn escape_char(c: char) -> Seq<char> {
    if c == '"' {
        seq!['\\', '"']
    } else if c == '\\' {
        seq!['\\', '\\']
    } else if c == '\n' {
        seq!['\\', 'n']
    } else if c == '\t' {
        seq!['\\', 't']
    } else {
        seq![c]
    }
}

/// Every character of `s` escaped.
pub open spec fn escape(s: Seq<char>) -> Seq<char>
    decreases s.len(),
{
    if s.len() == 0 {
        Seq::empty()
    } else {
        escape(s.drop_last()) + escape_char(s.last())
    }
}

/// `s` as a double-quoted HCL literal.
pub open spec fn spec_quote(s: Seq<char>) -> Seq<char> {
    seq!['"'] + escape(s) + seq!['"']
}

/// Escape a string for a double-quoted HCL literal.
pub fn quote(s: &str) -> (r: String)
    ensures
        r@ == spec_quote(s@),
{
    let cs = crate::text::chars_of(s);
    let mut out = String::new();
    push_char(&mut out, '"');
    let mut i: usize = 0;
    while i < cs.len()
        invariant
            cs@ == s@,
            0 <= i <= cs@.len(),
            out@ == seq!['"'] + escape(s@.take(i as int)),
        decreases cs@.len() - i,
    {
        let c = cs[i];
        let ghost before = out@;
        if c == '"' {
            push_char(&mut out, '\\');
            push_char(&mut out, '"');
        } else if c == '\\' {
            push_char(&mut out, '\\');
            push_char(&mut out, '\\');
        } else if c == '\n' {
            push_char(&mut out, '\\');
            push_char(&mut out, 'n');
        } else if c == '\t' {
            push_char(&mut out, '\\');
            push_char(&mut out, 't');
        } else {
            push_char(&mut out, c);
        }
        proof {
            assert(s@.take(i + 1).drop_last() =~= s@.take(i as int));
            assert(s@.take(i + 1).last() == c);
            assert(out@ =~= before + escape_char(c));
        }
        i = i + 1;
    }
    push_char(&mut out, '"');
    assert(s@.take(cs@.len() as int) =~= s@);
    out
}

/// `id` with every `-` turned into `_`: a valid Terraform local name
/// (`load-balancer-1` becomes `load_balancer_1`).
pub open spec fn spec_local_name(id: Seq<char>) -> Seq<char> {
    id.map_values(|c: char| if c == '-' { '_' } else { c })
}

/// `load-balancer-1` → `load_balancer_1`.
pub fn local_name(id: &str) -> (r: String)
    ensures
        r@ == spec_local_name(id@),
{
    let cs = crate::text::chars_of(id);
    let mut out = String::new();
    let mut i: usize = 0;
    while i < cs.len()
        invariant
            cs@ == id@,
            0 <= i <= cs@.len(),
            out@ == spec_local_name(id@.take(i as int)),
        decreases cs@.len() - i,
    {
        let c = cs[i];
        let ghost before = out@;
        if c == '-' {
            push_char(&mut out, '_');
        } else {
            push_char(&mut out, c);
        }
        assert(out@ =~= spec_local_name(id@.take(i + 1)));
        i = i + 1;
    }
    assert(id@.take(cs@.len() as int) =~= id@);
    out
}

// ---------------------------------------------------------------------------
// The writer
// ---------------------------------------------------------------------------

/// A document being written: its text, the current indent, and the
/// operations written so far.
pub struct Hcl {
    pub buf: String,
    pub indent: usize,
    pub ops: Ghost<Seq<HclOp>>,
}

impl Hcl {
    /// The text and indent are those the recorded operations produce.
    pub closed spec fn wf(&self) -> bool {
        &&& self.buf@ == run(self.ops@).0
        &&& self.indent == run(self.ops@).1
    }

    /// A well-formed document's text is what its operations render to.
    pub proof fn lemma_text(&self)
        requires
            self.wf(),
        ensures
            self.buf@ == render(self.ops@),
            self.indent == run(self.ops@).1,
    {
    }

    /// An empty document at indent zero.
    pub fn new() -> (h: Hcl)
        ensures
            h.wf(),
            h.ops@ == Seq::<HclOp>::empty(),
            h.indent == 0,
    {
        Hcl { buf: String::new(), indent: 0, ops: Ghost(Seq::empty()) }
    }

    /// Append the current indentation to the text.
    fn write_indent(&mut self)
        ensures
            final(self).buf@ == old(self).buf@ + spaces(old(self).indent as nat),
            final(self).indent == old(self).indent,
            final(self).ops == old(self).ops,
    {
        let mut k: usize = 0;
        while k < self.indent
            invariant
                0 <= k <= self.indent,
                self.indent == old(self).indent,
                self.ops == old(self).ops,
                self.buf@ == old(self).buf@ + spaces(k as nat),
            decreases self.indent - k,
        {
            self.buf.append("  ");
            assert(self.buf@ =~= old(self).buf@ + spaces((k + 1) as nat));
            k = k + 1;
        }
    }

    /// Write the current indentation.
    pub fn pad(&mut self)
        requires
            old(self).wf(),
        ensures
            final(self).wf(),
            final(self).ops@ == old(self).ops@.push(HclOp::Pad),
            final(self).indent == old(self).indent,
    {
        let ghost ops = self.ops@;
        self.write_indent();
        self.ops = Ghost(ops.push(HclOp::Pad));
        assert(self.ops@.drop_last() =~= ops);
    }

    /// Write an indented line.
    pub fn line(&mut self, s: &str)
        requires
            old(self).wf(),
        ensures
            final(self).wf(),
            final(self).ops@ == old(self).ops@.push(HclOp::Line(s@)),
            final(self).indent == old(self).indent,
    {
        let ghost ops = self.ops@;
        self.write_indent();
        self.buf.append(s);
        self.buf.append("\n");
        self.ops = Ghost(ops.push(HclOp::Line(s@)));
        assert(self.ops@.drop_last() =~= ops);
        assert(self.buf@ =~= run(self.ops@).0);
    }

    /// Write an indented `# s` comment line.
    pub fn comment(&mut self, s: &str)
        requires
            old(self).wf(),
        ensures
            final(self).wf(),
            final(self).ops@ == old(self).ops@.push(HclOp::Comment(s@)),
            final(self).indent == old(self).indent,
    {
        let ghost ops = self.ops@;
        self.write_indent();
        self.buf.append("# ");
        self.buf.append(s);
        self.buf.append("\n");
        self.ops = Ghost(ops.push(HclOp::Comment(s@)));
        assert(self.ops@.drop_last() =~= ops);
        assert(self.buf@ =~= run(self.ops@).0);
    }

    /// Write `<header> {` and step in. `header` carries everything left of
    /// the brace, e.g. `resource "aws_lb" "edge"` or `tags =`.
    pub fn open(&mut self, header: &str)
        requires
            old(self).wf(),
            old(self).indent < usize::MAX,
        ensures
            final(self).wf(),
            final(self).ops@ == old(self).ops@.push(HclOp::Open(header@)),
            final(self).indent == old(self).indent + 1,
    {
        let ghost ops = self.ops@;
        self.write_indent();
        self.buf.append(header);
        self.buf.append(" {\n");
        self.indent = self.indent + 1;
        self.ops = Ghost(ops.push(HclOp::Open(header@)));
        assert(self.ops@.drop_last() =~= ops);
        assert(self.buf@ =~= run(self.ops@).0);
    }

    /// Step out (never below zero) and write `}`.
    pub fn close(&mut self)
        requires
            old(self).wf(),
        ensures
            final(self).wf(),
            final(self).ops@ == old(self).ops@.push(HclOp::Close),
            final(self).indent == if old(self).indent == 0 {
                0
            } else {
                old(self).indent - 1
            },
    {
        let ghost ops = self.ops@;
        if self.indent > 0 {
            self.indent = self.indent - 1;
        }
        self.write_indent();
        self.buf.append("}\n");
        self.ops = Ghost(ops.push(HclOp::Close));
        assert(self.ops@.drop_last() =~= ops);
        assert(self.buf@ =~= run(self.ops@).0);
    }

    /// Write an indented `key = value` line.
    pub fn attr(&mut self, key: &str, value: &str)
        requires
            old(self).wf(),
        ensures
            final(self).wf(),
            final(self).ops@ == old(self).ops@.push(HclOp::Attr(key@, value@)),
            final(self).indent == old(self).indent,
    {
        let ghost ops = self.ops@;
        self.write_indent();
        self.buf.append(key);
        self.buf.append(" = ");
        self.buf.append(value);
        self.buf.append("\n");
        self.ops = Ghost(ops.push(HclOp::Attr(key@, value@)));
        assert(self.ops@.drop_last() =~= ops);
        assert(self.buf@ =~= run(self.ops@).0);
    }

    /// Write an empty line.
    pub fn blank(&mut self)
        requires
            old(self).wf(),
        ensures
            final(self).wf(),
            final(self).ops@ == old(self).ops@.push(HclOp::Blank),
            final(self).indent == old(self).indent,
    {
        let ghost ops = self.ops@;
        self.buf.append("\n");
        self.ops = Ghost(ops.push(HclOp::Blank));
        assert(self.ops@.drop_last() =~= ops);
        assert(self.buf@ =~= run(self.ops@).0);
    }

    /// Write the standard `tags` block of a resource.
    pub fn strata_tags(&mut self, r: &Resource)
        requires
            old(self).wf(),
            old(self).indent < usize::MAX,
        ensures
            final(self).wf(),
            final(self).ops@ == old(self).ops@ + tags_ops(r@),
            final(self).indent == old(self).indent,
    {
        let ghost ops = self.ops@;
        self.open("tags =");
        self.attr("\"strata:id\"", quote(r.id.as_str()).as_str());
        self.attr("Name", quote(r.label.as_str()).as_str());
        self.close();
        assert(self.ops@ =~= ops + tags_ops(r@));
    }
}

} // verus!
