//! Entry metadata and the comparison of two entries at one path.
//!
//! An entry is a regular file, a directory or a symlink.  Two entries of
//! different kinds are never equal.  Files and directories compare
//! field-by-field; a symlink compares by its literal target.  Every field
//! that differs is reported as a `(field_name, value_from_original)` pair of
//! text, in the fixed order mode, uid, gid, size, selinux_label, content.

use vstd::prelude::*;
use crate::decimal::decimal_str;
use crate::decimal::u32_to_decimal;
use crate::decimal::u64_to_decimal;
use vstd::utf8::valid_utf8;
use vstd::utf8::decode_utf8;

verus! {

/// Mathematical view of a regular file's metadata.
pub ghost struct FileMetaView {
    pub mode: u32,
    pub uid: u32,
    pub gid: u32,
    pub size: u64,
    pub selinux_label: Option<Seq<char>>,
}

/// Mathematical view of a directory's metadata.
pub ghost struct DirMetaView {
    pub mode: u32,
    pub uid: u32,
    pub gid: u32,
    pub selinux_label: Option<Seq<char>>,
}

/// Mathematical view of one filesystem entry.
pub ghost enum EntryView {
    File(FileMetaView),
    Dir(DirMetaView),
    Symlink(Seq<char>),
}

/// The view of an optional security label.
pub open spec fn label_view(l: Option<String>) -> Option<Seq<char>> {
    match l {
        Some(s) => Some(s@),
        None => None,
    }
}

/// Attributes of a regular file that take part in comparison.
pub struct FileMetadata {
    pub mode: u32,
    pub uid: u32,
    pub gid: u32,
    pub size: u64,
    pub selinux_label: Option<String>,
}

impl View for FileMetadata {
    type V = FileMetaView;

    open spec fn view(&self) -> FileMetaView {
        FileMetaView {
            mode: self.mode,
            uid: self.uid,
            gid: self.gid,
            size: self.size,
            selinux_label: label_view(self.selinux_label),
        }
    }
}

/// Attributes of a directory that take part in comparison.
pub struct DirMetadata {
    pub mode: u32,
    pub uid: u32,
    pub gid: u32,
    pub selinux_label: Option<String>,
}

impl View for DirMetadata {
    type V = DirMetaView;

    open spec fn view(&self) -> DirMetaView {
        DirMetaView {
            mode: self.mode,
            uid: self.uid,
            gid: self.gid,
            selinux_label: label_view(self.selinux_label),
        }
    }
}

/// One filesystem entry: a regular file, a directory, or a symlink with its
/// literal, unresolved target.
pub enum FileType {
    File(FileMetadata),
    Dir(DirMetadata),
    Symlink(String),
}

impl View for FileType {
    type V = EntryView;

    open spec fn view(&self) -> EntryView {
        match self {
            FileType::File(m) => EntryView::File(m@),
            FileType::Dir(m) => EntryView::Dir(m@),
            FileType::Symlink(t) => EntryView::Symlink(t@),
        }
    }
}

/// The views of a list of `(field_name, value)` pairs.
pub open spec fn pairs_view(s: Seq<(String, String)>) -> Seq<(Seq<char>, Seq<char>)> {
    s.map_values(|p: (String, String)| (p.0@, p.1@))
}

/// A single `(name, value)` pair when `c` holds, nothing otherwise.
pub open spec fn cond_pair(c: bool, name: Seq<char>, value: Seq<char>) -> Seq<(Seq<char>, Seq<char>)> {
    if c {
        seq![(name, value)]
    } else {
        Seq::empty()
    }
}

/// The reported text of an optional security label: the label itself, or
/// empty text for a confirmed absence.
pub open spec fn label_text(l: Option<Seq<char>>) -> Seq<char> {
    match l {
        Some(s) => s,
        None => Seq::empty(),
    }
}

/// The field differences of two regular files, in the fixed field order,
/// each valued with the original's field as decimal or label text.
pub open spec fn file_meta_diffs(a: FileMetaView, b: FileMetaView) -> Seq<(Seq<char>, Seq<char>)> {
    cond_pair(a.mode != b.mode, "mode"@, decimal_str(a.mode as nat))
        + cond_pair(a.uid != b.uid, "uid"@, decimal_str(a.uid as nat))
        + cond_pair(a.gid != b.gid, "gid"@, decimal_str(a.gid as nat))
        + cond_pair(a.size != b.size, "size"@, decimal_str(a.size as nat))
        + cond_pair(
            a.selinux_label != b.selinux_label,
            "selinux_label"@,
            label_text(a.selinux_label),
        )
}

/// The field differences of two directories, in the fixed field order.
pub open spec fn dir_meta_diffs(a: DirMetaView, b: DirMetaView) -> Seq<(Seq<char>, Seq<char>)> {
    cond_pair(a.mode != b.mode, "mode"@, decimal_str(a.mode as nat))
        + cond_pair(a.uid != b.uid, "uid"@, decimal_str(a.uid as nat))
        + cond_pair(a.gid != b.gid, "gid"@, decimal_str(a.gid as nat))
        + cond_pair(
            a.selinux_label != b.selinux_label,
            "selinux_label"@,
            label_text(a.selinux_label),
        )
}

/// Whether two entries are identical.  Entries of different kinds never
/// are; files must also agree on content, which is compared separately and
/// handed in as `same_content`.
pub open spec fn entries_identical(a: EntryView, b: EntryView, same_content: bool) -> bool {
    match (a, b) {
        (EntryView::File(m1), EntryView::File(m2)) => m1 == m2 && same_content,
        (EntryView::Dir(m1), EntryView::Dir(m2)) => m1 == m2,
        (EntryView::Symlink(t1), EntryView::Symlink(t2)) => t1 == t2,
        _ => false,
    }
}

/// The itemized field differences of two entries.  A kind mismatch and a
/// changed symlink target are whole-entry inequalities and itemize nothing;
/// differing file content is reported last, as `("content", "different")`.
pub open spec fn entry_diffs(a: EntryView, b: EntryView, same_content: bool) -> Seq<
    (Seq<char>, Seq<char>),
> {
    match (a, b) {
        (EntryView::File(m1), EntryView::File(m2)) => file_meta_diffs(m1, m2) + cond_pair(
            !same_content,
            "content"@,
            "different"@,
        ),
        (EntryView::Dir(m1), EntryView::Dir(m2)) => dir_meta_diffs(m1, m2),
        _ => Seq::empty(),
    }
}

fn label_equal(a: &Option<String>, b: &Option<String>) -> (r: bool)
    ensures
        r == (label_view(*a) == label_view(*b)),
{
    match a {
        None => b.is_none(),
        Some(x) => match b {
            None => false,
            Some(y) => x.eq(y),
        },
    }
}

fn label_original_text(l: &Option<String>) -> (r: String)
    ensures
        r@ == label_text(label_view(*l)),
{
    match l {
        Some(s) => s.clone(),
        None => String::new(),
    }
}

impl FileMetadata {
    /// Whether every compared field of the two records agrees.
    pub fn equal(&self, other: &FileMetadata) -> (r: bool)
        ensures
            r == (self@ == other@),
    {
        self.mode == other.mode && self.uid == other.uid && self.gid == other.gid && self.size
            == other.size && label_equal(&self.selinux_label, &other.selinux_label)
    }

    /// Every field that differs, paired with this record's value as text,
    /// in the fixed order mode, uid, gid, size, selinux_label.
    pub fn list_differences(&self, other: &FileMetadata) -> (r: Vec<(String, String)>)
        ensures
            pairs_view(r@) == file_meta_diffs(self@, other@),
    {
        let mut ret: Vec<(String, String)> = Vec::new();
        if self.mode != other.mode {
            ret.push((String::from_str("mode"), u32_to_decimal(self.mode)));
        }
        if self.uid != other.uid {
            ret.push((String::from_str("uid"), u32_to_decimal(self.uid)));
        }
        if self.gid != other.gid {
            ret.push((String::from_str("gid"), u32_to_decimal(self.gid)));
        }
        if self.size != other.size {
            ret.push((String::from_str("size"), u64_to_decimal(self.size)));
        }
        if !label_equal(&self.selinux_label, &other.selinux_label) {
            ret.push((String::from_str("selinux_label"), label_original_text(&self.selinux_label)));
        }
        proof {
            assert(pairs_view(ret@) =~= file_meta_diffs(self@, other@));
        }
        ret
    }
}

impl DirMetadata {
    /// Whether every compared field of the two records agrees.
    pub fn equal(&self, other: &DirMetadata) -> (r: bool)
        ensures
            r == (self@ == other@),
    {
        self.mode == other.mode && self.uid == other.uid && self.gid == other.gid && label_equal(
            &self.selinux_label,
            &other.selinux_label,
        )
    }

    /// Every field that differs, paired with this record's value as text,
    /// in the fixed order mode, uid, gid, selinux_label.
    pub fn list_differences(&self, other: &DirMetadata) -> (r: Vec<(String, String)>)
        ensures
            pairs_view(r@) == dir_meta_diffs(self@, other@),
    {
        let mut ret: Vec<(String, String)> = Vec::new();
        if self.mode != other.mode {
            ret.push((String::from_str("mode"), u32_to_decimal(self.mode)));
        }
        if self.uid != other.uid {
            ret.push((String::from_str("uid"), u32_to_decimal(self.uid)));
        }
        if self.gid != other.gid {
            ret.push((String::from_str("gid"), u32_to_decimal(self.gid)));
        }
        if !label_equal(&self.selinux_label, &other.selinux_label) {
            ret.push((String::from_str("selinux_label"), label_original_text(&self.selinux_label)));
        }
        proof {
            assert(pairs_view(ret@) =~= dir_meta_diffs(self@, other@));
        }
        ret
    }
}

/// Whether two file contents are byte-identical.
pub fn content_identical(a: &Vec<u8>, b: &Vec<u8>) -> (r: bool)
    ensures
        r == (a@ == b@),
{
    if a.len() != b.len() {
        return false;
    }
    let mut i: usize = 0;
    while i < a.len()
        invariant
            a@.len() == b@.len(),
            i <= a@.len(),
            forall|j: int| 0 <= j < i ==> a@[j] == b@[j],
        decreases a@.len() - i,
    {
        if a[i] != b[i] {
            return false;
        }
        i += 1;
    }
    proof {
        assert(a@ =~= b@);
    }
    true
}

/// Compare the entries found at one relative path in the two trees.  For a
/// pair of regular files the byte contents of both are handed in and take
/// part; for every other pairing they are ignored.  Returns whether the
/// entries are identical, and the itemized field differences.
pub fn compare_files(type1: &FileType, type2: &FileType, content1: &Vec<u8>, content2: &Vec<u8>)
    -> (r: (bool, Vec<(String, String)>))
    ensures
        r.0 == entries_identical(type1@, type2@, content1@ == content2@),
        pairs_view(r.1@) == entry_diffs(type1@, type2@, content1@ == content2@),
{
    match (type1, type2) {
        (FileType::File(m1), FileType::File(m2)) => {
            let same_content = content_identical(content1, content2);
            if m1.equal(m2) && same_content {
                proof {
                    assert(pairs_view(Seq::<(String, String)>::empty()) =~= entry_diffs(
                        type1@,
                        type2@,
                        content1@ == content2@,
                    ));
                }
                (true, Vec::new())
            } else {
                let mut ret = m1.list_differences(m2);
                if !same_content {
                    ret.push((String::from_str("content"), String::from_str("different")));
                }
                proof {
                    assert(pairs_view(ret@) =~= entry_diffs(type1@, type2@, content1@ == content2@));
                }
                (false, ret)
            }
        },
        (FileType::Dir(m1), FileType::Dir(m2)) => {
            if m1.equal(m2) {
                proof {
                    assert(pairs_view(Seq::<(String, String)>::empty()) =~= entry_diffs(
                        type1@,
                        type2@,
                        content1@ == content2@,
                    ));
                }
                (true, Vec::new())
            } else {
                (false, m1.list_differences(m2))
            }
        },
        (FileType::Symlink(t1), FileType::Symlink(t2)) => {
            proof {
                assert(pairs_view(Seq::<(String, String)>::empty()) =~= entry_diffs(
                    type1@,
                    type2@,
                    content1@ == content2@,
                ));
            }
            (t1.eq(t2), Vec::new())
        },
        _ => {
            proof {
                assert(pairs_view(Seq::<(String, String)>::empty()) =~= entry_diffs(
                    type1@,
                    type2@,
                    content1@ == content2@,
                ));
            }
            (false, Vec::new())
        },
    }
}

/// The failure of decoding a security label that is present on the entry.
pub enum SecurityLabelError {
    NotUnicode,
}

/// Relies on `String::from_utf8`: it succeeds exactly on valid UTF-8 input
/// and returns the string those bytes encode.
#[verifier::external_body]
fn string_from_utf8(bytes: Vec<u8>) -> (r: Option<String>)
    ensures
        r is Some <==> valid_utf8(bytes@),
        r matches Some(s) ==> s@ == decode_utf8(bytes@),
{
    String::from_utf8(bytes).ok()
}

/// Decide the security label from a raw extended-attribute read: an absent
/// attribute is a confirmed absence, present bytes must decode as text, and
/// undecodable bytes are an error rather than a silent absence.
pub fn decode_security_label(attr: Option<Vec<u8>>) -> (r: Result<
    Option<String>,
    SecurityLabelError,
>)
    ensures
        attr is None ==> r matches Ok(None),
        attr matches Some(b) ==> if valid_utf8(b@) {
            (r matches Ok(l) && l matches Some(s) && s@ == decode_utf8(b@))
        } else {
            r is Err
        },
{
    match attr {
        None => Ok(None),
        Some(bytes) => match string_from_utf8(bytes) {
            Some(label) => Ok(Some(label)),
            None => Err(SecurityLabelError::NotUnicode),
        },
    }
}

/// The canonical position of a reported field name in a difference list.
pub open spec fn field_rank(name: Seq<char>) -> int {
    if name == "mode"@ {
        0
    } else if name == "uid"@ {
        1
    } else if name == "gid"@ {
        2
    } else if name == "size"@ {
        3
    } else if name == "selinux_label"@ {
        4
    } else {
        5
    }
}

/// Whether the field names of a difference list appear in strictly
/// ascending canonical order.
pub open spec fn ranks_strictly_increasing(d: Seq<(Seq<char>, Seq<char>)>) -> bool {
    forall|i: int, j: int|
        0 <= i < j < d.len() ==> field_rank(d[i].0) < field_rank(d[j].0)
}

proof fn lemma_literal_ranks()
    ensures
        field_rank("mode"@) == 0,
        field_rank("uid"@) == 1,
        field_rank("gid"@) == 2,
        field_rank("size"@) == 3,
        field_rank("selinux_label"@) == 4,
        field_rank("content"@) == 5,
{
    reveal_strlit("mode");
    reveal_strlit("uid");
    reveal_strlit("gid");
    reveal_strlit("size");
    reveal_strlit("selinux_label");
    reveal_strlit("content");
    assert("mode"@.len() == 4);
    assert("uid"@.len() == 3);
    assert("gid"@.len() == 3);
    assert("size"@.len() == 4);
    assert("selinux_label"@.len() == 13);
    assert("content"@.len() == 7);
    assert("mode"@[0] == 'm');
    assert("uid"@[0] == 'u');
    assert("gid"@[0] == 'g');
    assert("size"@[0] == 's');
}

proof fn lemma_rank_concat(
    x: Seq<(Seq<char>, Seq<char>)>,
    y: Seq<(Seq<char>, Seq<char>)>,
    m: int,
    hi: int,
)
    requires
        ranks_strictly_increasing(x),
        ranks_strictly_increasing(y),
        m <= hi,
        forall|i: int| 0 <= i < x.len() ==> field_rank((#[trigger] x[i]).0) < m,
        forall|i: int| 0 <= i < y.len() ==> m <= field_rank((#[trigger] y[i]).0) < hi,
    ensures
        ranks_strictly_increasing(x + y),
        forall|i: int| 0 <= i < (x + y).len() ==> field_rank((#[trigger] (x + y)[i]).0) < hi,
{
    assert forall|i: int, j: int| 0 <= i < j < (x + y).len() implies field_rank(
        (x + y)[i].0,
    ) < field_rank((x + y)[j].0) by {
        if j < x.len() {
            assert((x + y)[i] == x[i]);
            assert((x + y)[j] == x[j]);
        } else if i < x.len() {
            assert((x + y)[i] == x[i]);
            assert((x + y)[j] == y[j - x.len()]);
        } else {
            assert((x + y)[i] == y[i - x.len()]);
            assert((x + y)[j] == y[j - x.len()]);
        }
    }
    assert forall|i: int| 0 <= i < (x + y).len() implies field_rank((x + y)[i].0) < hi by {
        if i < x.len() {
            assert((x + y)[i] == x[i]);
        } else {
            assert((x + y)[i] == y[i - x.len()]);
        }
    }
}

/// The itemized differences of any two entries name their fields in the
/// fixed order mode, uid, gid, size, selinux_label, content, never permuted.
pub proof fn lemma_field_diff_order(a: EntryView, b: EntryView, same_content: bool)
    ensures
        ranks_strictly_increasing(entry_diffs(a, b, same_content)),
{
    lemma_literal_ranks();
    match (a, b) {
        (EntryView::File(m1), EntryView::File(m2)) => {
            let c1 = cond_pair(m1.mode != m2.mode, "mode"@, decimal_str(m1.mode as nat));
            let c2 = cond_pair(m1.uid != m2.uid, "uid"@, decimal_str(m1.uid as nat));
            let c3 = cond_pair(m1.gid != m2.gid, "gid"@, decimal_str(m1.gid as nat));
            let c4 = cond_pair(m1.size != m2.size, "size"@, decimal_str(m1.size as nat));
            let c5 = cond_pair(
                m1.selinux_label != m2.selinux_label,
                "selinux_label"@,
                label_text(m1.selinux_label),
            );
            let cc = cond_pair(!same_content, "content"@, "different"@);
            lemma_rank_concat(c1, c2, 1, 2);
            lemma_rank_concat(c1 + c2, c3, 2, 3);
            lemma_rank_concat(c1 + c2 + c3, c4, 3, 4);
            lemma_rank_concat(c1 + c2 + c3 + c4, c5, 4, 5);
            lemma_rank_concat(c1 + c2 + c3 + c4 + c5, cc, 5, 6);
        },
        (EntryView::Dir(m1), EntryView::Dir(m2)) => {
            let c1 = cond_pair(m1.mode != m2.mode, "mode"@, decimal_str(m1.mode as nat));
            let c2 = cond_pair(m1.uid != m2.uid, "uid"@, decimal_str(m1.uid as nat));
            let c3 = cond_pair(m1.gid != m2.gid, "gid"@, decimal_str(m1.gid as nat));
            let c4 = cond_pair(
                m1.selinux_label != m2.selinux_label,
                "selinux_label"@,
                label_text(m1.selinux_label),
            );
            lemma_rank_concat(c1, c2, 1, 2);
            lemma_rank_concat(c1 + c2, c3, 2, 3);
            lemma_rank_concat(c1 + c2 + c3, c4, 3, 5);
        },
        _ => {},
    }
}

/// A security-label difference is itemized exactly when the two labels
/// differ: absent on both sides or equal on both sides yields no
/// `selinux_label` entry, and a differing label is reported with the
/// original's label text.
pub proof fn lemma_label_diff(a: FileMetaView, b: FileMetaView)
    ensures
        a.selinux_label == b.selinux_label ==> forall|i: int|
            0 <= i < file_meta_diffs(a, b).len() ==> (#[trigger] file_meta_diffs(a, b)[i]).0
                != "selinux_label"@,
        a.selinux_label != b.selinux_label ==> file_meta_diffs(a, b).contains(
            ("selinux_label"@, label_text(a.selinux_label)),
        ),
{
    lemma_literal_ranks();
    let c1 = cond_pair(a.mode != b.mode, "mode"@, decimal_str(a.mode as nat));
    let c2 = cond_pair(a.uid != b.uid, "uid"@, decimal_str(a.uid as nat));
    let c3 = cond_pair(a.gid != b.gid, "gid"@, decimal_str(a.gid as nat));
    let c4 = cond_pair(a.size != b.size, "size"@, decimal_str(a.size as nat));
    let c5 = cond_pair(
        a.selinux_label != b.selinux_label,
        "selinux_label"@,
        label_text(a.selinux_label),
    );
    let d = file_meta_diffs(a, b);
    if a.selinux_label == b.selinux_label {
        assert forall|i: int| 0 <= i < d.len() implies (#[trigger] d[i]).0 != "selinux_label"@ by {
            let head = c1 + c2 + c3 + c4;
            assert(d =~= head);
            if i < c1.len() {
                assert(head[i] == c1[i]);
            } else if i < c1.len() + c2.len() {
                assert(head[i] == c2[i - c1.len()]);
            } else if i < c1.len() + c2.len() + c3.len() {
                assert(head[i] == c3[i - c1.len() - c2.len()]);
            } else {
                assert(head[i] == c4[i - c1.len() - c2.len() - c3.len()]);
            }
        }
    } else {
        assert(d.last() == ("selinux_label"@, label_text(a.selinux_label)));
        assert(d.contains(("selinux_label"@, label_text(a.selinux_label)))) by {
            assert(d[d.len() - 1] == ("selinux_label"@, label_text(a.selinux_label)));
        }
    }
}

/// An entry compared against itself, with identical content, is identical
/// and itemizes no field difference.
pub proof fn lemma_identical_entry(t: EntryView)
    ensures
        entries_identical(t, t, true),
        entry_diffs(t, t, true) =~= Seq::<(Seq<char>, Seq<char>)>::empty(),
{
}

/// Whether a difference is detected does not depend on which tree is
/// handed in as the original: detection is symmetric, only the reported
/// field values are original-relative.
pub proof fn lemma_detection_symmetric(a: EntryView, b: EntryView, same_content: bool)
    ensures
        entries_identical(a, b, same_content) == entries_identical(b, a, same_content),
{
}

} // verus!
