//! Textual rendering of tag sequences.
//!
//! The host-embedding entry point returns the predictions of a text as
//! one string. Each tag is rendered as `POSTag { word: "...", label:
//! "..." }`, a text's tags as a bracketed, comma-separated list, and a
//! batch as the concatenation of its texts' lists. Inside the quoted
//! fields, quotes and backslashes are escaped with a backslash, so
//! punctuation words render unambiguously.

use vstd::prelude::*;
use vstd::string::{StrSliceExecFns, StringExecFns};

use crate::pos_tagging::{tag_batch_model, tags_model, POSTag, TagModel};

verus! {

/// Rendering of one character of a quoted field.
pub open spec fn escape_char(c: char) -> Seq<char> {
    if c == '"' {
        seq!['\\', '"']
    } else if c == '\\' {
        seq!['\\', '\\']
    } else {
        seq![c]
    }
}

/// Rendering of a quoted field's content.
pub open spec fn escape_text(s: Seq<char>) -> Seq<char>
    decreases s.len(),
{
    if s.len() == 0 {
        Seq::empty()
    } else {
        escape_text(s.drop_last()) + escape_char(s.last())
    }
}

/// Rendering of one tag.
pub open spec fn tag_repr(t: TagModel) -> Seq<char> {
    "POSTag { word: \""@ + escape_text(t.word) + "\", label: \""@ + escape_text(t.label)
        + "\" }"@
}

/// Rendering of the tags of one text, without the brackets.
pub open spec fn tags_inner(ts: Seq<TagModel>) -> Seq<char>
    decreases ts.len(),
{
    if ts.len() == 0 {
        Seq::empty()
    } else if ts.len() == 1 {
        tag_repr(ts[0])
    } else {
        tags_inner(ts.drop_last()) + ", "@ + tag_repr(ts.last())
    }
}

/// Rendering of the tags of one text.
pub open spec fn tags_repr(ts: Seq<TagModel>) -> Seq<char> {
    "["@ + tags_inner(ts) + "]"@
}

/// Rendering of a whole batch: the texts' lists, concatenated in
/// order.
pub open spec fn batch_repr(b: Seq<Seq<TagModel>>) -> Seq<char>
    decreases b.len(),
{
    if b.len() == 0 {
        Seq::empty()
    } else {
        batch_repr(b.drop_last()) + tags_repr(b.last())
    }
}

/// Append the escaped content of `src` to `out`.
fn append_escaped(out: &mut String, src: &str)
    ensures
        final(out)@ == old(out)@ + escape_text(src@),
{
    let n = src.unicode_len();
    let mut k: usize = 0;
    proof {
        assert(escape_text(src@.take(0)) == Seq::<char>::empty());
        assert(old(out)@ + escape_text(src@.take(0)) =~= old(out)@);
    }
    while k < n
        invariant
            n == src@.len(),
            k <= n,
            out@ == old(out)@ + escape_text(src@.take(k as int)),
        decreases n - k,
    {
        proof {
            assert(src@.take(k + 1).drop_last() =~= src@.take(k as int));
            assert(src@.take(k + 1).last() == src@[k as int]);
        }
        let c = src.get_char(k);
        if c == '"' {
            out.append("\\\"");
            proof {
                reveal_strlit("\\\"");
                assert("\\\""@ =~= escape_char(c));
            }
        } else if c == '\\' {
            out.append("\\\\");
            proof {
                reveal_strlit("\\\\");
                assert("\\\\"@ =~= escape_char(c));
            }
        } else {
            let piece = src.substring_char(k, k + 1);
            proof {
                assert(piece@ =~= escape_char(c));
            }
            out.append(piece);
        }
        k = k + 1;
        proof {
            assert(out@ =~= old(out)@ + escape_text(src@.take(k as int)));
        }
    }
    proof {
        assert(src@.take(n as int) =~= src@);
    }
}

/// Append the rendering of one tag to `out`.
fn append_tag(out: &mut String, t: &POSTag)
    ensures
        final(out)@ == old(out)@ + tag_repr(t.model()),
{
    out.append("POSTag { word: \"");
    append_escaped(out, t.word.as_str());
    out.append("\", label: \"");
    append_escaped(out, t.label.as_str());
    out.append("\" }");
    proof {
        assert(out@ =~= old(out)@ + tag_repr(t.model()));
    }
}

/// Append the rendering of one text's tags to `out`.
fn append_tags(out: &mut String, tags: &Vec<POSTag>)
    ensures
        final(out)@ == old(out)@ + tags_repr(tags_model(tags@)),
{
    let ghost ts = tags_model(tags@);
    out.append("[");
    let mut k: usize = 0;
    proof {
        assert(tags_inner(ts.take(0)) == Seq::<char>::empty());
        assert(out@ =~= old(out)@ + "["@ + tags_inner(ts.take(0)));
    }
    while k < tags.len()
        invariant
            ts == tags_model(tags@),
            k <= tags@.len(),
            out@ == old(out)@ + "["@ + tags_inner(ts.take(k as int)),
        decreases tags@.len() - k,
    {
        proof {
            assert(ts.take(k + 1).drop_last() =~= ts.take(k as int));
            assert(ts.take(k + 1).last() == ts[k as int]);
            assert(ts[k as int] == tags@[k as int].model());
        }
        if k > 0 {
            out.append(", ");
        }
        append_tag(out, &tags[k]);
        k = k + 1;
        proof {
            assert(out@ =~= old(out)@ + "["@ + tags_inner(ts.take(k as int)));
        }
    }
    out.append("]");
    proof {
        assert(ts.take(tags@.len() as int) =~= ts);
        assert(out@ =~= old(out)@ + tags_repr(ts));
    }
}

/// Render a whole batch of tag sequences as one string.
pub fn serialize_tags(batch: &Vec<Vec<POSTag>>) -> (s: String)
    ensures
        s@ == batch_repr(tag_batch_model(batch@)),
{
    let ghost b = tag_batch_model(batch@);
    let mut out = String::new();
    let mut k: usize = 0;
    proof {
        assert(batch_repr(b.take(0)) == Seq::<char>::empty());
        assert(out@ =~= batch_repr(b.take(0)));
    }
    while k < batch.len()
        invariant
            b == tag_batch_model(batch@),
            k <= batch@.len(),
            out@ == batch_repr(b.take(k as int)),
        decreases batch@.len() - k,
    {
        proof {
            assert(b.take(k + 1).drop_last() =~= b.take(k as int));
            assert(b.take(k + 1).last() == b[k as int]);
            assert(b[k as int] == tags_model(batch@[k as int]@));
        }
        append_tags(&mut out, &batch[k]);
        k = k + 1;
        proof {
            assert(out@ =~= batch_repr(b.take(k as int)));
        }
    }
    proof {
        assert(b.take(batch@.len() as int) =~= b);
    }
    out
}

} // verus!
