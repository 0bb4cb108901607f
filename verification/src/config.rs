//! The user's configuration: where the store and the origins live, and which
//! library formats are built and linked.
use vstd::prelude::*;
use crate::text::{chars_of, to_string};
use crate::paths::{expand_path, expand_with_home, home_found, home_text};

verus! {

/// Settings of the Opus library.
pub struct OpusConfig {
    pub enable: Option<bool>,
    pub kbps: Option<u32>,
    pub root: Option<String>,
    pub link_to_album_root: Option<bool>,
    pub link_to_library_root: Option<bool>,
}

/// Settings of the FLAC library.
pub struct FlacConfig {
    pub enable: Option<bool>,
    pub root: Option<String>,
    pub link_to_album_root: Option<bool>,
    pub link_to_library_root: Option<bool>,
}

/// Settings of the libraries, one per format.
pub struct LibraryConfig {
    pub flac: Option<FlacConfig>,
    pub opus: Option<OpusConfig>,
}

/// The whole configuration.
pub struct AppConfig {
    pub store: Option<String>,
    pub origin: Option<String>,
    pub environment: Option<String>,
    pub library: Option<LibraryConfig>,
}

/// The view of an optional string.
pub open spec fn opt_view(o: Option<String>) -> Option<Seq<char>> {
    match o {
        Some(s) => Some(s@),
        None => None,
    }
}

/// A library format.
#[derive(PartialEq, Eq, Structural, Clone, Copy)]
pub enum Format {
    Flac,
    Opus,
}

impl Format {
    /// The format's name, as it appears in file extensions and expressions.
    pub open spec fn spec_name(self) -> Seq<char> {
        match self {
            Format::Flac => seq!['f', 'l', 'a', 'c'],
            Format::Opus => seq!['o', 'p', 'u', 's'],
        }
    }

    /// The format's name.
    pub fn name(&self) -> (r: String)
        ensures
            r@ == self.spec_name(),
    {
        match self {
            Format::Flac => {
                let r = to_string("flac");
                proof {
                    reveal_strlit("flac");
                }
                assert(r@ =~= seq!['f', 'l', 'a', 'c']);
                r
            },
            Format::Opus => {
                let r = to_string("opus");
                proof {
                    reveal_strlit("opus");
                }
                assert(r@ =~= seq!['o', 'p', 'u', 's']);
                r
            },
        }
    }
}

impl AppConfig {
    /// The configured store directory, `/nix/store` by default.
    pub open spec fn spec_store_dir(&self) -> Seq<char> {
        match self.store {
            Some(s) => s@,
            None => "/nix/store"@,
        }
    }

    /// The configured origin directory, `.` by default.
    pub open spec fn spec_origin_dir(&self) -> Seq<char> {
        match self.origin {
            Some(s) => s@,
            None => seq!['.'],
        }
    }

    /// The store path with a leading `~` expanded; the caller resolves it to
    /// its canonical form when it exists, and keeps it as it is otherwise.
    pub fn get_store_path(&self) -> (r: String)
        ensures
            exists|home: Option<Seq<char>>| r@ == expand_with_home(self.spec_store_dir(), home),
            exists|home: Option<String>| #[trigger] home_found(home) && r@ == expand_with_home(
                self.spec_store_dir(),
                home_text(home),
            ),
    {
        let r = match &self.store {
            Some(s) => expand_path(s.as_str()),
            None => expand_path("/nix/store"),
        };
        proof {
            let h = choose|h: Option<Seq<char>>| r@ == expand_with_home(self.spec_store_dir(), h);
            assert(r@ == expand_with_home(self.spec_store_dir(), h));
            let g = choose|g: Option<String>| #[trigger] home_found(g) && r@ == expand_with_home(
                self.spec_store_dir(),
                home_text(g),
            );
            assert(home_found(g));
        }
        r
    }

    /// The base directory of origins, with a leading `~` expanded.
    pub fn origin_base_path(&self) -> (r: String)
        ensures
            exists|home: Option<Seq<char>>| r@ == expand_with_home(self.spec_origin_dir(), home),
            exists|home: Option<String>| #[trigger] home_found(home) && r@ == expand_with_home(
                self.spec_origin_dir(),
                home_text(home),
            ),
    {
        let r = match &self.origin {
            Some(s) => expand_path(s.as_str()),
            None => {
                let r = expand_path(".");
                proof {
                    reveal_strlit(".");
                }
                assert("."@ =~= seq!['.']);
                r
            },
        };
        proof {
            let h = choose|h: Option<Seq<char>>| r@ == expand_with_home(self.spec_origin_dir(), h);
            assert(r@ == expand_with_home(self.spec_origin_dir(), h));
            let g = choose|g: Option<String>| #[trigger] home_found(g) && r@ == expand_with_home(
                self.spec_origin_dir(),
                home_text(g),
            );
            assert(home_found(g));
        }
        r
    }

    /// The FLAC library is enabled.
    pub open spec fn spec_flac_enabled(&self) -> bool {
        match self.library {
            Some(l) => match l.flac {
                Some(f) => f.enable == Some(true),
                None => false,
            },
            None => false,
        }
    }

    /// The Opus library is enabled.
    pub open spec fn spec_opus_enabled(&self) -> bool {
        match self.library {
            Some(l) => match l.opus {
                Some(o) => o.enable == Some(true),
                None => false,
            },
            None => false,
        }
    }

    /// The formats to build, FLAC first, each when its library is enabled.
    pub open spec fn spec_build_formats(&self) -> Seq<Format> {
        let f: Seq<Format> = if self.spec_flac_enabled() { seq![Format::Flac] } else { seq![] };
        if self.spec_opus_enabled() { f.push(Format::Opus) } else { f }
    }

    /// The formats to build, FLAC first, each when its library is enabled.
    pub fn build_formats(&self) -> (r: Vec<Format>)
        ensures
            r@ == self.spec_build_formats(),
    {
        let mut r: Vec<Format> = Vec::new();
        let flac = match &self.library {
            Some(l) => match &l.flac {
                Some(f) => match f.enable {
                    Some(b) => b,
                    None => false,
                },
                None => false,
            },
            None => false,
        };
        let opus = match &self.library {
            Some(l) => match &l.opus {
                Some(o) => match o.enable {
                    Some(b) => b,
                    None => false,
                },
                None => false,
            },
            None => false,
        };
        if flac {
            r.push(Format::Flac);
        }
        if opus {
            r.push(Format::Opus);
        }
        assert(r@ =~= self.spec_build_formats());
        r
    }

    /// Whether a format's outputs are linked into the album directory: FLAC
    /// unless disabled, Opus only when enabled.
    pub open spec fn spec_links_to_album_root(&self, fmt: Format) -> bool {
        match fmt {
            Format::Flac => match self.library {
                Some(l) => match l.flac {
                    Some(f) => f.link_to_album_root != Some(false),
                    None => true,
                },
                None => true,
            },
            Format::Opus => match self.library {
                Some(l) => match l.opus {
                    Some(o) => o.link_to_album_root == Some(true),
                    None => false,
                },
                None => false,
            },
        }
    }

    /// Whether a format's outputs are linked into the album directory.
    pub fn links_to_album_root(&self, fmt: Format) -> (r: bool)
        ensures
            r == self.spec_links_to_album_root(fmt),
    {
        match fmt {
            Format::Flac => match &self.library {
                Some(l) => match &l.flac {
                    Some(f) => match f.link_to_album_root {
                        Some(b) => b,
                        None => true,
                    },
                    None => true,
                },
                None => true,
            },
            Format::Opus => match &self.library {
                Some(l) => match &l.opus {
                    Some(o) => match o.link_to_album_root {
                        Some(b) => b,
                        None => false,
                    },
                    None => false,
                },
                None => false,
            },
        }
    }

    /// The library root that a format's outputs are linked into, when that
    /// library is enabled, links to its root, and has a non-empty root.
    pub open spec fn spec_library_link_root(&self, fmt: Format) -> Option<Seq<char>> {
        match self.library {
            Some(l) => match fmt {
                Format::Flac => match l.flac {
                    Some(f) => if f.enable == Some(true) && f.link_to_library_root == Some(true) {
                        match f.root {
                            Some(r) => if r@.len() > 0 { Some(r@) } else { None },
                            None => None,
                        }
                    } else {
                        None
                    },
                    None => None,
                },
                Format::Opus => match l.opus {
                    Some(o) => if o.enable == Some(true) && o.link_to_library_root == Some(true) {
                        match o.root {
                            Some(r) => if r@.len() > 0 { Some(r@) } else { None },
                            None => None,
                        }
                    } else {
                        None
                    },
                    None => None,
                },
            },
            None => None,
        }
    }

    /// The library root that a format's outputs are linked into, if any.
    pub fn library_link_root(&self, fmt: Format) -> (r: Option<String>)
        ensures
            opt_view(r) == self.spec_library_link_root(fmt),
    {
        match &self.library {
            None => None,
            Some(l) => {
                let (enable, link, root) = match fmt {
                    Format::Flac => match &l.flac {
                        Some(f) => (f.enable, f.link_to_library_root, &f.root),
                        None => return None,
                    },
                    Format::Opus => match &l.opus {
                        Some(o) => (o.enable, o.link_to_library_root, &o.root),
                        None => return None,
                    },
                };
                if enable == Some(true) && link == Some(true) {
                    match root {
                        Some(r) => {
                            let v = chars_of(r.as_str());
                            if v.len() > 0 {
                                Some(r.clone())
                            } else {
                                None
                            }
                        },
                        None => None,
                    }
                } else {
                    None
                }
            },
        }
    }

    /// The directories whose store links are migrated: the working directory
    /// when known, then the FLAC root and the Opus root when set.
    pub open spec fn spec_migration_dirs(&self, cwd: Option<Seq<char>>) -> Seq<Seq<char>> {
        let a: Seq<Seq<char>> = match cwd {
            Some(c) => seq![c],
            None => seq![],
        };
        let b = match self.library {
            Some(l) => match l.flac {
                Some(f) => match f.root {
                    Some(r) => a.push(r@),
                    None => a,
                },
                None => a,
            },
            None => a,
        };
        match self.library {
            Some(l) => match l.opus {
                Some(o) => match o.root {
                    Some(r) => b.push(r@),
                    None => b,
                },
                None => b,
            },
            None => b,
        }
    }

    /// The directories whose store links are migrated.
    pub fn migration_dirs(&self, cwd: Option<String>) -> (r: Vec<String>)
        ensures
            crate::text::views_str(r@) == self.spec_migration_dirs(opt_view(cwd)),
    {
        let mut r: Vec<String> = Vec::new();
        match cwd {
            Some(c) => r.push(c),
            None => {},
        }
        match &self.library {
            Some(l) => {
                match &l.flac {
                    Some(f) => match &f.root {
                        Some(root) => r.push(root.clone()),
                        None => {},
                    },
                    None => {},
                }
                match &l.opus {
                    Some(o) => match &o.root {
                        Some(root) => r.push(root.clone()),
                        None => {},
                    },
                    None => {},
                }
            },
            None => {},
        }
        assert(crate::text::views_str(r@) =~= self.spec_migration_dirs(opt_view(cwd)));
        r
    }
}

} // verus!
