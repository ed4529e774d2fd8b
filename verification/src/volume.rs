//! Volumes: the unit of tracking in a repository.

use vstd::prelude::*;

use crate::codec::pairs_view;
use crate::error::Error;
use crate::strutil::string_eq;

verus! {

broadcast use vstd::string::group_string_axioms;

/// How a volume's snapshot is produced.
#[derive(Debug, Clone, PartialEq)]
pub enum Scheme {
    /// Snapshotted from a volume of the local container runtime.
    Managed,
    /// Referenced from content hosted elsewhere, at the carried source URI.
    External(String),
}

/// The mathematical value of a [`Scheme`].
pub enum SchemeView {
    Managed,
    External(Seq<char>),
}

impl View for Scheme {
    type V = SchemeView;

    open spec fn view(&self) -> SchemeView {
        match self {
            Scheme::Managed => SchemeView::Managed,
            Scheme::External(uri) => SchemeView::External(uri@),
        }
    }
}

/// A named volume tracked by a manifest.
///
/// The digest is absent only for a freshly created, never-staged volume.
#[derive(Debug, Clone, PartialEq)]
pub struct Volume {
    name: String,
    hash: Option<String>,
    scheme: Scheme,
}

/// The mathematical value of a [`Volume`].
pub struct VolumeView {
    pub name: Seq<char>,
    pub hash: Option<Seq<char>>,
    pub scheme: SchemeView,
}

impl View for Volume {
    type V = VolumeView;

    closed spec fn view(&self) -> VolumeView {
        VolumeView {
            name: self.name@,
            hash: match self.hash {
                Some(h) => Some(h@),
                None => None,
            },
            scheme: self.scheme@,
        }
    }
}

impl Volume {
    fn new(name: &str, hash: Option<&str>, scheme: Scheme) -> (r: Volume)
        ensures
            r@.name == name@,
            r@.hash == (match hash {
                Some(h) => Some(h@),
                None => None::<Seq<char>>,
            }),
            r@.scheme == scheme@,
    {
        Volume {
            name: name.to_owned(),
            hash: match hash {
                Some(h) => Some(h.to_owned()),
                None => None,
            },
            scheme,
        }
    }

    /// A freshly created managed volume; it has no digest until staged.
    pub fn managed(name: &str) -> (r: Volume)
        ensures
            r@.name == name@,
            r@.hash is None,
            r@.scheme is Managed,
    {
        Volume::new(name, None, Scheme::Managed)
    }

    /// An externally hosted volume, whose digest the caller supplies.
    pub fn external(name: &str, hash: &str, uri: &str) -> (r: Volume)
        ensures
            r@.name == name@,
            r@.hash == Some(hash@),
            r@.scheme == SchemeView::External(uri@),
    {
        Volume::new(name, Some(hash), Scheme::External(uri.to_owned()))
    }

    pub fn get_name(&self) -> (r: &str)
        ensures
            r@ == self@.name,
    {
        self.name.as_str()
    }

    pub fn get_hash(&self) -> (r: &Option<String>)
        ensures
            self@.hash == (match r {
                Some(h) => Some(h@),
                None => None::<Seq<char>>,
            }),
    {
        &self.hash
    }

    pub fn set_hash(&mut self, hash: &str)
        ensures
            final(self)@ == (VolumeView { hash: Some(hash@), ..old(self)@ }),
    {
        self.hash = Some(hash.to_owned());
    }

    pub fn get_scheme(&self) -> (r: &Scheme)
        ensures
            r@ == self@.scheme,
    {
        &self.scheme
    }

    pub fn set_scheme(&mut self, scheme: Scheme)
        ensures
            final(self)@ == (VolumeView { scheme: scheme@, ..old(self)@ }),
    {
        self.scheme = scheme;
    }
}

/// The canonical field pairs under which a volume is persisted: its
/// digest when present, then its scheme, then its source URI when
/// external.
pub open spec fn volume_fields(v: VolumeView) -> Seq<(Seq<char>, Seq<char>)> {
    (match v.hash {
        Some(h) => seq![("hash"@, h)],
        None => Seq::empty(),
    }) + (match v.scheme {
        SchemeView::Managed => seq![("scheme"@, "managed"@)],
        SchemeView::External(uri) => seq![("scheme"@, "external"@), ("uri"@, uri)],
    })
}

/// The volume that a canonical field list denotes, if any.
pub open spec fn parse_fields(name: Seq<char>, ps: Seq<(Seq<char>, Seq<char>)>) -> Option<
    VolumeView,
> {
    if ps.len() == 1 && ps[0] == ("scheme"@, "managed"@) {
        Some(VolumeView { name, hash: None, scheme: SchemeView::Managed })
    } else if ps.len() == 2 && ps[0].0 == "hash"@ && ps[1] == ("scheme"@, "managed"@) {
        Some(VolumeView { name, hash: Some(ps[0].1), scheme: SchemeView::Managed })
    } else if ps.len() == 2 && ps[0] == ("scheme"@, "external"@) && ps[1].0 == "uri"@ {
        Some(VolumeView { name, hash: None, scheme: SchemeView::External(ps[1].1) })
    } else if ps.len() == 3 && ps[0].0 == "hash"@ && ps[1] == ("scheme"@, "external"@)
        && ps[2].0 == "uri"@ {
        Some(VolumeView { name, hash: Some(ps[0].1), scheme: SchemeView::External(ps[2].1) })
    } else {
        None
    }
}

/// Parsing is the inverse of rendering: the canonical field pairs of a
/// volume denote exactly that volume.
pub proof fn lemma_parse_volume_fields(w: VolumeView)
    ensures
        parse_fields(w.name, volume_fields(w)) == Some(w),
{
    reveal_strlit("hash");
    reveal_strlit("scheme");
    reveal_strlit("managed");
    reveal_strlit("external");
    reveal_strlit("uri");
    assert("hash"@.len() == 4 && "scheme"@.len() == 6 && "uri"@.len() == 3);
    assert("managed"@.len() == 7 && "external"@.len() == 8);
    assert("hash"@ != "scheme"@ && "hash"@ != "uri"@ && "scheme"@ != "uri"@);
    assert("managed"@ != "external"@);
    match w.hash {
        Some(h) => {
            match w.scheme {
                SchemeView::Managed => {
                    assert(volume_fields(w) =~= seq![("hash"@, h), ("scheme"@, "managed"@)]);
                    assert(parse_fields(w.name, volume_fields(w)) == Some(w));
                },
                SchemeView::External(uri) => {
                    assert(volume_fields(w) =~= seq![
                        ("hash"@, h),
                        ("scheme"@, "external"@),
                        ("uri"@, uri),
                    ]);
                    assert(parse_fields(w.name, volume_fields(w)) == Some(w));
                },
            }
        },
        None => {
            match w.scheme {
                SchemeView::Managed => {
                    assert(volume_fields(w) =~= seq![("scheme"@, "managed"@)]);
                    assert(parse_fields(w.name, volume_fields(w)) == Some(w));
                },
                SchemeView::External(uri) => {
                    assert(volume_fields(w) =~= seq![("scheme"@, "external"@), ("uri"@, uri)]);
                    assert(parse_fields(w.name, volume_fields(w)) == Some(w));
                },
            }
        },
    }
}

impl Volume {
    /// Renders the volume as its canonical field pairs.
    pub fn to_fields(&self) -> (r: Vec<(String, String)>)
        ensures
            pairs_view(r@) == volume_fields(self@),
    {
        let mut out: Vec<(String, String)> = Vec::new();
        match &self.hash {
            Some(h) => out.push(("hash".to_owned(), h.clone())),
            None => {},
        }
        match &self.scheme {
            Scheme::Managed => out.push(("scheme".to_owned(), "managed".to_owned())),
            Scheme::External(uri) => {
                out.push(("scheme".to_owned(), "external".to_owned()));
                out.push(("uri".to_owned(), uri.clone()));
            },
        }
        proof {
            assert(pairs_view(out@) =~= volume_fields(self@));
        }
        out
    }

    /// Reads a volume back from its persisted field pairs; only the
    /// canonical shape written by `to_fields` is accepted.
    pub fn from_fields(name: &str, fields: &Vec<(String, String)>) -> (r: Result<Volume, Error>)
        ensures
            match r {
                Ok(v) => parse_fields(name@, pairs_view(fields@)) == Some(v@),
                Err(e) => parse_fields(name@, pairs_view(fields@)) is None && e
                    matches Error::Malformed(_),
            },
    {
        proof {
            assert(forall|i: int|
                0 <= i < fields@.len() ==> pairs_view(fields@)[i] == (
                #[trigger] fields@[i].0@,
                fields@[i].1@,
                ));
        }
        if fields.len() == 1 {
            let f0 = &fields[0];
            if string_eq(f0.0.as_str(), "scheme") && string_eq(f0.1.as_str(), "managed") {
                return Ok(Volume::new(name, None, Scheme::Managed));
            }
        } else if fields.len() == 2 {
            let f0 = &fields[0];
            let f1 = &fields[1];
            if string_eq(f0.0.as_str(), "hash") && string_eq(f1.0.as_str(), "scheme") && string_eq(
                f1.1.as_str(),
                "managed",
            ) {
                return Ok(Volume::new(name, Some(f0.1.as_str()), Scheme::Managed));
            }
            if string_eq(f0.0.as_str(), "scheme") && string_eq(f0.1.as_str(), "external")
                && string_eq(f1.0.as_str(), "uri") {
                return Ok(Volume::new(name, None, Scheme::External(f1.1.clone())));
            }
        } else if fields.len() == 3 {
            let f0 = &fields[0];
            let f1 = &fields[1];
            let f2 = &fields[2];
            if string_eq(f0.0.as_str(), "hash") && string_eq(f1.0.as_str(), "scheme") && string_eq(
                f1.1.as_str(),
                "external",
            ) && string_eq(f2.0.as_str(), "uri") {
                return Ok(Volume::new(name, Some(f0.1.as_str()), Scheme::External(f2.1.clone())));
            }
        }
        proof {
            reveal_strlit("hash");
            reveal_strlit("scheme");
            reveal_strlit("managed");
            reveal_strlit("external");
            reveal_strlit("uri");
        }
        Err(Error::Malformed(name.to_owned()))
    }
}

} // verus!
