//! The document interface's data model: what one compile pass produces, how
//! output file names are understood, and the image markup embedded into note
//! fields. Running the compiler and reading its output directory happen
//! outside; this module is handed file names and bytes.

use vstd::prelude::*;

use crate::assoc::{
    assoc_get, assoc_unique, lemma_assoc_get_absent, lemma_assoc_get_present,
    lemma_assoc_get_push, lemma_assoc_get_update,
};
use crate::text::{
    all_digits, dec_digits, digits_val, is_digit, lemma_digits_val_grows, lemma_digits_val_nonneg,
    str_eq, usize_to_string,
};

verus! {

/// A visual rendering variant of the compiled pages.
#[derive(Debug, Clone, Copy, PartialEq, Eq, Structural)]
pub enum Theme {
    Dark,
    Light,
    Both,
}

/// The name of a rendered page's image: the encoded bytes are base64.
pub uninterp spec fn base64_of(bytes: Seq<u8>) -> Seq<char>;

/// Relies on the base64 crate's standard alphabet engine: the encoding is a
/// function of the bytes alone, four output characters for every three input
/// bytes, padded.
#[verifier::external_body]
fn encode_base64(data: &Vec<u8>) -> (r: String)
    ensures
        r@ == base64_of(data@),
        r@.len() == 4 * ((data@.len() + 2) / 3),
{
    base64::Engine::encode(&base64::engine::general_purpose::STANDARD, data)
}

/// One compile pass: for each page number, the produced file's path and its
/// base64-encoded contents.
#[derive(Debug, Clone)]
pub struct CompileOutput {
    pub files: Vec<(usize, (String, String))>,
}

impl CompileOutput {
    /// Page numbers occur at most once.
    pub open spec fn wf(&self) -> bool {
        assoc_unique(self.files@)
    }

    /// The (path, encoded data) stored for page `n`.
    pub open spec fn spec_page(&self, n: usize) -> Option<(String, String)> {
        assoc_get(self.files@, n)
    }

    pub fn new() -> (r: CompileOutput)
        ensures
            r.files@.len() == 0,
            r.wf(),
    {
        CompileOutput { files: Vec::new() }
    }

    /// Looks a page up.
    pub fn page(&self, n: usize) -> (r: Option<&(String, String)>)
        ensures
            match r {
                Some(p) => self.spec_page(n) == Some(*p),
                None => self.spec_page(n) is None,
            },
    {
        let mut i: usize = 0;
        while i < self.files.len()
            invariant
                i <= self.files@.len(),
                forall|k: int| 0 <= k < i ==> (#[trigger] self.files@[k]).0 != n,
            decreases self.files@.len() - i,
        {
            if self.files[i].0 == n {
                proof {
                    lemma_assoc_get_present(self.files@, n, i as int);
                }
                return Some(&self.files[i].1);
            }
            i += 1;
        }
        proof {
            lemma_assoc_get_absent(self.files@, n);
        }
        None
    }

    /// Stores a page, replacing an earlier entry of the same number.
    #[verifier::loop_isolation(false)]
    pub fn insert_page(&mut self, page: usize, path: String, encoded: String)
        requires
            old(self).wf(),
            old(self).files@.len() < usize::MAX,
        ensures
            final(self).wf(),
            final(self).spec_page(page) == Some((path, encoded)),
            forall|m: usize|
                m != page ==> #[trigger] final(self).spec_page(m) == old(self).spec_page(m),
    {
        let ghost old_v = self.files@;
        let mut i: usize = 0;
        while i < self.files.len()
            invariant
                i <= self.files@.len(),
                self.files@ == old_v,
                forall|k: int| 0 <= k < i ==> (#[trigger] self.files@[k]).0 != page,
            decreases self.files@.len() - i,
        {
            if self.files[i].0 == page {
                self.files[i] = (page, (path, encoded));
                proof {
                    assert(self.files@ =~= old_v.update(i as int, (old_v[i as int].0, (path, encoded))));
                    lemma_assoc_get_present(self.files@, page, i as int);
                    assert forall|m: usize| m != page implies #[trigger] assoc_get(
                        self.files@,
                        m,
                    ) == assoc_get(old_v, m) by {
                        lemma_assoc_get_update(old_v, i as int, (path, encoded), m);
                    }
                }
                return ;
            }
            i += 1;
        }
        proof {
            lemma_assoc_get_absent(old_v, page);
        }
        self.files.push((page, (path, encoded)));
        proof {
            assert(self.files@ =~= old_v.push((page, (path, encoded))));
            lemma_assoc_get_present(self.files@, page, old_v.len() as int);
            assert forall|m: usize| m != page implies #[trigger] assoc_get(self.files@, m)
                == assoc_get(old_v, m) by {
                lemma_assoc_get_push(old_v, page, (path, encoded), m);
            }
        }
    }
}

/// The compiled pages, once per requested theme.
#[derive(Debug, Clone)]
pub enum ThemedCompileOutput {
    Light(CompileOutput),
    Dark(CompileOutput),
    Both { light: CompileOutput, dark: CompileOutput },
}

/// A well-formed output file name: the literal `page`, one or more decimal
/// digits, the literal `.svg`.
pub open spec fn is_page_name(s: Seq<char>) -> bool {
    &&& s.len() >= 9
    &&& s.subrange(0, 4) == "page"@
    &&& s.subrange(s.len() - 4, s.len() as int) == ".svg"@
    &&& all_digits(s.subrange(4, s.len() - 4))
}

/// The digits between the fixed prefix and suffix.
pub open spec fn page_name_digits(s: Seq<char>) -> Seq<char> {
    s.subrange(4, s.len() - 4)
}

/// Reads the page number out of an output file name: `Some` exactly for a
/// well-formed name whose number fits the machine.
pub fn parse_page_filename(name: &str) -> (r: Option<usize>)
    ensures
        r matches Some(n) ==> is_page_name(name@) && n == digits_val(page_name_digits(name@)),
        r is None ==> !is_page_name(name@) || digits_val(page_name_digits(name@)) > usize::MAX,
{
    let len = name.unicode_len();
    if len < 9 {
        return None;
    }
    if !str_eq(name.substring_char(0, 4), "page") {
        return None;
    }
    if !str_eq(name.substring_char(len - 4, len), ".svg") {
        return None;
    }
    let ghost mid = page_name_digits(name@);
    let mut acc: usize = 0;
    let mut i: usize = 4;
    while i < len - 4
        invariant
            len == name@.len(),
            len >= 9,
            4 <= i <= len - 4,
            mid == page_name_digits(name@),
            all_digits(name@.subrange(4, i as int)),
            acc == digits_val(name@.subrange(4, i as int)),
        decreases len - 4 - i,
    {
        let c = name.get_char(i);
        let u = c as u32;
        if u < 48 || u > 57 {
            proof {
                assert(mid[i - 4] == name@[i as int]);
                assert(!is_digit(mid[i - 4]));
            }
            return None;
        }
        let d = (u - 48) as usize;
        if acc > (usize::MAX - d) / 10 {
            proof {
                let prefix = name@.subrange(4, i + 1);
                assert(prefix.drop_last() =~= name@.subrange(4, i as int));
                assert(prefix.last() == name@[i as int]);
                assert(digits_val(prefix) == acc * 10 + d);
                assert(acc * 10 + d > usize::MAX) by {
                    let q = ((usize::MAX - d) / 10) as int;
                    assert(usize::MAX - d == q * 10 + ((usize::MAX - d) % 10));
                    assert((usize::MAX - d) % 10 <= 9);
                };
                if is_page_name(name@) {
                    assert(all_digits(mid));
                    assert(mid.subrange(0, i - 4 + 1) =~= prefix);
                    lemma_digits_val_grows(mid, i - 4 + 1);
                    assert(digits_val(mid) > usize::MAX);
                }
            }
            return None;
        }
        acc = acc * 10 + d;
        proof {
            assert(name@.subrange(4, i + 1).drop_last() =~= name@.subrange(4, i as int));
            assert(name@.subrange(4, i + 1).last() == name@[i as int]);
        }
        i += 1;
    }
    proof {
        assert(name@.subrange(4, i as int) =~= mid);
        assert(is_page_name(name@));
    }
    Some(acc)
}

/// An error of the document interface: an output file whose name is not of
/// the `page<number>.svg` form (or whose number does not fit the machine).
#[derive(Debug, Clone)]
pub enum InterfaceError {
    BadFilename(String),
}

impl CompileOutput {
    /// Takes one file of the compiler's output directory: reads the page
    /// number from its name, encodes the raw bytes, and stores the page.
    pub fn insert_page_file(&mut self, filename: &str, path: String, data: &Vec<u8>) -> (r: Result<
        (),
        InterfaceError,
    >)
        requires
            old(self).wf(),
            old(self).files@.len() < usize::MAX,
        ensures
            final(self).wf(),
            match r {
                Ok(()) => {
                    &&& is_page_name(filename@)
                    &&& digits_val(page_name_digits(filename@)) <= usize::MAX
                    &&& ({
                        let n = digits_val(page_name_digits(filename@));
                        &&& final(self).spec_page(n as usize) matches Some(p) && p.0@ == path@
                            && p.1@ == base64_of(data@)
                        &&& forall|m: usize|
                            m != n ==> #[trigger] final(self).spec_page(m) == old(self).spec_page(
                                m,
                            )
                    })
                },
                Err(InterfaceError::BadFilename(f)) => {
                    &&& f@ == filename@
                    &&& (!is_page_name(filename@) || digits_val(page_name_digits(filename@))
                        > usize::MAX)
                    &&& *final(self) == *old(self)
                },
            },
    {
        match parse_page_filename(filename) {
            None => Err(InterfaceError::BadFilename(filename.to_owned())),
            Some(n) => {
                let encoded = encode_base64(data);
                self.insert_page(n, path, encoded);
                Ok(())
            },
        }
    }
}

/// The `alt` attribute carrying a field's text as accessibility label.
pub open spec fn spec_alt_attr(alt: Option<Seq<char>>) -> Seq<char> {
    match alt {
        Some(a) => " alt=\""@ + a + "\""@,
        None => Seq::<char>::empty(),
    }
}

/// One embedded image reference.
pub open spec fn spec_img_tag(src: Seq<char>, alt: Option<Seq<char>>) -> Seq<char> {
    "<img src=\""@ + src + "\""@ + spec_alt_attr(alt) + ">"@
}

/// Two image references for one page, tagged for conditional light/dark
/// display.
pub open spec fn spec_themed_img_tags(
    light: Seq<char>,
    dark: Seq<char>,
    alt: Option<Seq<char>>,
) -> Seq<char> {
    "<img src=\""@ + light + "\""@ + spec_alt_attr(alt) + " class=\"lighttheme\">"@ + "<img src=\""@
        + dark + "\""@ + spec_alt_attr(alt) + " class=\"darktheme\">"@
}

fn push_alt_attr(out: &mut String, alt: Option<&String>)
    ensures
        final(out)@ == old(out)@ + spec_alt_attr(match alt {
            Some(a) => Some(a@),
            None => None,
        }),
{
    match alt {
        Some(a) => {
            out.append(" alt=\"");
            out.append(a.as_str());
            out.append("\"");
        },
        None => {},
    }
    proof {
        assert(out@ =~= old(out)@ + spec_alt_attr(match alt {
            Some(a) => Some(a@),
            None => None,
        }));
    }
}

/// Builds one embedded image reference.
pub fn img_tag(src: &str, alt: Option<&String>) -> (r: String)
    ensures
        r@ == spec_img_tag(src@, match alt {
            Some(a) => Some(a@),
            None => None,
        }),
{
    let mut out = "<img src=\"".to_owned();
    out.append(src);
    out.append("\"");
    push_alt_attr(&mut out, alt);
    out.append(">");
    proof {
        assert(out@ =~= spec_img_tag(src@, match alt {
            Some(a) => Some(a@),
            None => None,
        }));
    }
    out
}

/// Builds the paired light/dark image references for one page.
pub fn themed_img_tags(light: &str, dark: &str, alt: Option<&String>) -> (r: String)
    ensures
        r@ == spec_themed_img_tags(light@, dark@, match alt {
            Some(a) => Some(a@),
            None => None,
        }),
{
    let mut out = "<img src=\"".to_owned();
    out.append(light);
    out.append("\"");
    push_alt_attr(&mut out, alt);
    out.append(" class=\"lighttheme\">");
    out.append("<img src=\"");
    out.append(dark);
    out.append("\"");
    push_alt_attr(&mut out, alt);
    out.append(" class=\"darktheme\">");
    proof {
        assert(out@ =~= spec_themed_img_tags(light@, dark@, match alt {
            Some(a) => Some(a@),
            None => None,
        }));
    }
    out
}

/// The requested media file name for one rendered page of one note.
pub open spec fn spec_media_filename(id: Seq<char>, page: nat) -> Seq<char> {
    id + "_page"@ + dec_digits(page) + ".svg"@
}

/// Builds the media file name under which a rendered page is uploaded.
pub fn media_filename(id: &str, page: usize) -> (r: String)
    ensures
        r@ == spec_media_filename(id@, page as nat),
{
    let mut s = id.to_owned();
    s.append("_page");
    let num = usize_to_string(page);
    s.append(num.as_str());
    s.append(".svg");
    proof {
        assert(s@ =~= spec_media_filename(id@, page as nat));
    }
    s
}

} // verus!
