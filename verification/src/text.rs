//! Building a text out of runs that each carry their own font, with the
//! byte range of each run.
use vstd::prelude::*;

verus! {

/// One run of text in a [`LayoutJob`]: the bytes `byte_start..byte_end` of the
/// job's text, drawn with `font`.
#[derive(Debug, Clone, Copy, PartialEq, Eq)]
pub struct LayoutSection<F> {
    pub byte_start: usize,
    pub byte_end: usize,
    pub font: F,
}

/// A text made of runs that each carry their own font.
#[derive(Debug)]
pub struct LayoutJob<F> {
    pub text: String,
    pub sections: Vec<LayoutSection<F>>,
}

/// Number of UTF-8 bytes of a character sequence.
pub open spec fn byte_len(s: Seq<char>) -> nat {
    vstd::utf8::encode_utf8(s).len()
}

/// Byte offset of the end of a character sequence, as `str::len` reports it.
pub open spec fn byte_offset(s: Seq<char>) -> usize {
    byte_len(s) as usize
}

/// The section that [`layout_job`] makes for entry `i`: the bytes of its
/// text within the joined text, and its font.
pub open spec fn section_of<F>(entries: Seq<(F, &str)>, i: int) -> LayoutSection<F> {
    LayoutSection {
        byte_start: byte_offset(joined_prefix(entries, i)),
        byte_end: byte_offset(joined_prefix(entries, i + 1)),
        font: entries[i].0,
    }
}

/// A section moved `by` bytes further into the text.
pub open spec fn shifted<F>(section: LayoutSection<F>, by: usize) -> LayoutSection<F> {
    LayoutSection {
        byte_start: (section.byte_start + by) as usize,
        byte_end: (section.byte_end + by) as usize,
        font: section.font,
    }
}

/// Concatenation of the texts of the first `n` entries.
pub open spec fn joined_prefix<F>(entries: Seq<(F, &str)>, n: int) -> Seq<char>
    decreases n,
{
    if n <= 0 {
        Seq::<char>::empty()
    } else {
        joined_prefix(entries, n - 1) + entries[n - 1].1@
    }
}

/// The UTF-8 bytes of two texts joined are the bytes of each, joined.
pub proof fn lemma_encode_utf8_concat(a: Seq<char>, b: Seq<char>)
    ensures
        vstd::utf8::encode_utf8(a + b) == vstd::utf8::encode_utf8(a) + vstd::utf8::encode_utf8(b),
    decreases a.len(),
{
    if a.len() == 0 {
        assert(a + b =~= b);
    } else {
        assert((a + b).drop_first() =~= a.drop_first() + b);
        lemma_encode_utf8_concat(a.drop_first(), b);
    }
}

/// Lays out the given texts one after another, each in its own section with
/// its own font.
pub fn layout_job<F: Copy>(text: &[(F, &str)]) -> (job: LayoutJob<F>)
    ensures
        job.text@ == joined_prefix(text@, text@.len() as int),
        job.sections@.len() == text@.len(),
        job.sections@.len() > 0 ==> job.sections@[0].byte_start == 0,
        job.sections@.len() > 0 ==> job.sections@.last().byte_end == byte_offset(job.text@),
        forall|i: int|
            0 <= i < job.sections@.len() - 1 ==> #[trigger] job.sections@[i].byte_end == job.sections@[i
                + 1].byte_start,
        forall|i: int| 0 <= i < text@.len() ==> #[trigger] job.sections@[i] == section_of(text@, i),
{
    let mut job = LayoutJob { text: String::new(), sections: Vec::new() };
    let mut i: usize = 0;
    while i < text.len()
        invariant
            i <= text@.len(),
            job.text@ == joined_prefix(text@, i as int),
            job.sections@.len() == i,
            forall|k: int|
                #![trigger job.sections@[k]]
                0 <= k < i ==> {
                    &&& job.sections@[k].font == text@[k].0
                    &&& job.sections@[k].byte_start == byte_offset(joined_prefix(text@, k))
                    &&& job.sections@[k].byte_end == byte_offset(joined_prefix(text@, k + 1))
                },
        decreases text@.len() - i,
    {
        let (font, part) = text[i];
        let start = job.text.as_str().len();
        proof {
            lemma_encode_utf8_concat(job.text@, part@);
        }
        job.text.append(part);
        let end = job.text.as_str().len();
        let ghost old_sections = job.sections@;
        job.sections.push(LayoutSection { byte_start: start, byte_end: end, font });
        proof {
            assert(joined_prefix(text@, i + 1) == joined_prefix(text@, i as int) + text@[i as int].1@);
            assert forall|k: int| #![trigger job.sections@[k]] 0 <= k < i + 1 implies {
                &&& job.sections@[k].font == text@[k].0
                &&& job.sections@[k].byte_start == byte_offset(joined_prefix(text@, k))
                &&& job.sections@[k].byte_end == byte_offset(joined_prefix(text@, k + 1))
            } by {
                if k < i {
                    assert(job.sections@[k] == old_sections[k]);
                } else {
                    assert(font == text@[k].0);
                    assert(part@ == text@[k].1@);
                    assert(start == byte_offset(joined_prefix(text@, k)));
                    assert(end == byte_offset(joined_prefix(text@, k + 1)));
                }
            }
        }
        i = i + 1;
    }
    proof {
        assert forall|k: int| 0 <= k < text@.len() implies #[trigger] job.sections@[k] == section_of(
            text@,
            k,
        ) by {
            assert(job.sections@[k].font == text@[k].0);
        }
        assert(vstd::utf8::encode_utf8(Seq::<char>::empty()) =~= Seq::<u8>::empty());
        assert(joined_prefix(text@, 0) =~= Seq::<char>::empty());
        let n = job.sections@.len() as int;
        assert forall|i: int| 0 <= i < n - 1 implies #[trigger] job.sections@[i].byte_end
            == job.sections@[i + 1].byte_start by {
            assert(job.sections@[i].font == text@[i].0);
            assert(job.sections@[i + 1].font == text@[i + 1].0);
        }
        if n > 0 {
            assert(job.sections@[0].font == text@[0].0);
            assert(job.sections@[n - 1].font == text@[n - 1].0);
        }
    }
    job
}

/// The first `i` entries of a concatenation are those of its first part.
pub proof fn lemma_prefix_of_first_part<F>(a: Seq<(F, &str)>, b: Seq<(F, &str)>, i: int)
    requires
        0 <= i <= a.len(),
    ensures
        joined_prefix(a + b, i) == joined_prefix(a, i),
    decreases i,
{
    if i > 0 {
        lemma_prefix_of_first_part(a, b, i - 1);
        assert((a + b)[i - 1] == a[i - 1]);
    }
}

/// Past its first part, the text of a concatenation is the whole first part
/// followed by the entries taken from the second.
pub proof fn lemma_prefix_into_second_part<F>(a: Seq<(F, &str)>, b: Seq<(F, &str)>, i: int)
    requires
        0 <= i <= b.len(),
    ensures
        joined_prefix(a + b, a.len() + i) == joined_prefix(a, a.len() as int) + joined_prefix(b, i),
    decreases i,
{
    if i == 0 {
        lemma_prefix_of_first_part(a, b, a.len() as int);
        assert(joined_prefix(a, a.len() as int) + joined_prefix(b, 0) =~= joined_prefix(a, a.len() as int));
    } else {
        lemma_prefix_into_second_part(a, b, i - 1);
        assert((a + b)[a.len() + i - 1] == b[i - 1]);
        assert(joined_prefix(a, a.len() as int) + joined_prefix(b, i - 1) + b[i - 1].1@
            =~= joined_prefix(a, a.len() as int) + (joined_prefix(b, i - 1) + b[i - 1].1@));
    }
}

/// A longer prefix of the entries has at least as many bytes.
pub proof fn lemma_prefix_bytes_grow<F>(e: Seq<(F, &str)>, i: int, j: int)
    requires
        0 <= i <= j <= e.len(),
    ensures
        byte_len(joined_prefix(e, i)) <= byte_len(joined_prefix(e, j)),
    decreases j - i,
{
    if i < j {
        lemma_prefix_bytes_grow(e, i, j - 1);
        lemma_encode_utf8_concat(joined_prefix(e, j - 1), e[j - 1].1@);
    }
}

/// Laying out two lists of texts one after the other is laying out each:
/// the text is the two texts joined, the first part's sections stay as they
/// are, and the second part's sections move by the length of the first
/// text. The joined text is held in memory, so its length fits a `usize`.
pub proof fn law_layout_job_concat<F>(a: Seq<(F, &str)>, b: Seq<(F, &str)>)
    requires
        byte_len(joined_prefix(a + b, (a + b).len() as int)) <= usize::MAX,
    ensures
        joined_prefix(a + b, (a + b).len() as int) == joined_prefix(a, a.len() as int) + joined_prefix(
            b,
            b.len() as int,
        ),
        forall|i: int| 0 <= i < a.len() ==> #[trigger] section_of(a + b, i) == section_of(a, i),
        forall|i: int|
            0 <= i < b.len() ==> #[trigger] section_of(a + b, a.len() + i) == shifted(
                section_of(b, i),
                byte_offset(joined_prefix(a, a.len() as int)),
            ),
{
    let ab = a + b;
    let n = ab.len() as int;
    lemma_prefix_into_second_part(a, b, b.len() as int);
    assert forall|i: int| 0 <= i < a.len() implies #[trigger] section_of(a + b, i) == section_of(a, i) by {
        lemma_prefix_of_first_part(a, b, i);
        lemma_prefix_of_first_part(a, b, i + 1);
        assert(ab[i] == a[i]);
    }
    assert forall|i: int| 0 <= i < b.len() implies #[trigger] section_of(a + b, a.len() + i) == shifted(
        section_of(b, i),
        byte_offset(joined_prefix(a, a.len() as int)),
    ) by {
        let pa = joined_prefix(a, a.len() as int);
        lemma_prefix_into_second_part(a, b, i);
        lemma_prefix_into_second_part(a, b, i + 1);
        lemma_encode_utf8_concat(pa, joined_prefix(b, i));
        lemma_encode_utf8_concat(pa, joined_prefix(b, i + 1));
        lemma_prefix_bytes_grow(ab, a.len() + i + 1, n);
        lemma_prefix_bytes_grow(ab, a.len() + i, a.len() + i + 1);
        assert(ab[a.len() + i] == b[i]);
        let la = byte_len(pa);
        let l0 = byte_len(joined_prefix(b, i));
        let l1 = byte_len(joined_prefix(b, i + 1));
        assert(byte_len(joined_prefix(ab, a.len() + i)) == la + l0);
        assert(byte_len(joined_prefix(ab, a.len() + i + 1)) == la + l1);
        assert(la + l1 <= usize::MAX);
        assert(l0 <= l1) by {
            lemma_prefix_bytes_grow(b, i, i + 1);
        }
        let s_ab = section_of(ab, a.len() + i);
        let s_b = shifted(section_of(b, i), byte_offset(pa));
        assert(s_ab.byte_start == s_b.byte_start);
        assert(s_ab.byte_end == s_b.byte_end);
        assert(s_ab.font == s_b.font);
    }
}

} // verus!
