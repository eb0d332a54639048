//! Configuration of the astronomical name-resolution service: which
//! database mirror to query and at which locations. The query itself
//! is outside work; this module only models and validates the choice.

use vstd::prelude::*;
use vstd::string::{StringExecFns, StringExecFnsIsAscii};

use crate::error::FitsHeaderError;
use crate::hdu_types::fold_lower;
use crate::value::{ascii_u8s, string_to_ascii_bytes};

verus! {

/// An enumeration of SESAME database options.
#[derive(Debug, Clone, Copy, PartialEq, Eq, Structural)]
pub enum SesameDatabase {
    /// Indicates all available databases should be queried.
    All,
    /// The Simbad database.
    Simbad,
    /// The NED database.
    Ned,
    /// The VizieR database.
    Vizier,
}

/// The abbreviation letter of each database option.
pub open spec fn spec_sesame_letter(d: SesameDatabase) -> Seq<char> {
    match d {
        SesameDatabase::All => seq!['A'],
        SesameDatabase::Simbad => seq!['S'],
        SesameDatabase::Ned => seq!['N'],
        SesameDatabase::Vizier => seq!['V'],
    }
}

/// Which database option a name selects, compared without regard to
/// ASCII case: the abbreviation letter or the full name.
pub open spec fn spec_sesame_parse(folded: Seq<u8>) -> Option<SesameDatabase> {
    if folded == seq![97u8] || folded == seq![97u8, 108, 108] {
        Some(SesameDatabase::All)
    } else if folded == seq![115u8] || folded == seq![115u8, 105, 109, 98, 97, 100] {
        Some(SesameDatabase::Simbad)
    } else if folded == seq![110u8] || folded == seq![110u8, 101, 100] {
        Some(SesameDatabase::Ned)
    } else if folded == seq![118u8] || folded == seq![118u8, 105, 122, 105, 101, 114] {
        Some(SesameDatabase::Vizier)
    } else {
        None
    }
}

impl SesameDatabase {
    /// Returns the abbreviation for the database, usable in the query URL.
    pub fn to_str(&self) -> (r: &'static str)
        ensures
            r@ == spec_sesame_letter(*self),
    {
        proof {
            reveal_strlit("A");
            reveal_strlit("S");
            reveal_strlit("N");
            reveal_strlit("V");
        }
        match self {
            SesameDatabase::All => "A",
            SesameDatabase::Simbad => "S",
            SesameDatabase::Ned => "N",
            SesameDatabase::Vizier => "V",
        }
    }

    /// Parses a database option from its letter or full name, without
    /// regard to ASCII case; any other name is refused.
    pub fn parse(value: &String) -> (r: Option<SesameDatabase>)
        ensures
            ({
                let folded = if vstd::utf8::is_ascii_chars(value@) {
                    Some(fold_lower(ascii_u8s(value@)))
                } else {
                    None::<Seq<u8>>
                };
                match folded {
                    Some(f) => r == spec_sesame_parse(f),
                    None => r is None,
                }
            }),
    {
        if !value.is_ascii() {
            return None;
        }
        let b = string_to_ascii_bytes(value);
        let mut f: Vec<u8> = Vec::new();
        let n = b.len();
        let mut i: usize = 0;
        while i < n
            invariant
                i <= n == b@.len(),
                f@ == fold_lower(b@).take(i as int),
            decreases n - i,
        {
            let x = b[i];
            let fx = if 65 <= x && x <= 90 {
                x + 32
            } else {
                x
            };
            f.push(fx);
            assert(f@ =~= fold_lower(b@).take(i + 1));
            i += 1;
        }
        proof {
            assert(fold_lower(b@).take(n as int) =~= fold_lower(b@));
        }
        let fl = f.len();
        if fl == 1 && f[0] == 97 {
            proof {
                assert(f@ =~= seq![97u8]);
            }
            Some(SesameDatabase::All)
        } else if fl == 3 && f[0] == 97 && f[1] == 108 && f[2] == 108 {
            proof {
                assert(f@ =~= seq![97u8, 108, 108]);
            }
            Some(SesameDatabase::All)
        } else if fl == 1 && f[0] == 115 {
            proof {
                assert(f@ =~= seq![115u8]);
            }
            Some(SesameDatabase::Simbad)
        } else if fl == 6 && f[0] == 115 && f[1] == 105 && f[2] == 109 && f[3] == 98 && f[4]
            == 97 && f[5] == 100 {
            proof {
                assert(f@ =~= seq![115u8, 105, 109, 98, 97, 100]);
            }
            Some(SesameDatabase::Simbad)
        } else if fl == 1 && f[0] == 110 {
            proof {
                assert(f@ =~= seq![110u8]);
            }
            Some(SesameDatabase::Ned)
        } else if fl == 3 && f[0] == 110 && f[1] == 101 && f[2] == 100 {
            proof {
                assert(f@ =~= seq![110u8, 101, 100]);
            }
            Some(SesameDatabase::Ned)
        } else if fl == 1 && f[0] == 118 {
            proof {
                assert(f@ =~= seq![118u8]);
            }
            Some(SesameDatabase::Vizier)
        } else if fl == 6 && f[0] == 118 && f[1] == 105 && f[2] == 122 && f[3] == 105 && f[4]
            == 101 && f[5] == 114 {
            proof {
                assert(f@ =~= seq![118u8, 105, 122, 105, 101, 114]);
            }
            Some(SesameDatabase::Vizier)
        } else {
            proof {
                let w = f@;
                assert(w != seq![97u8] && w != seq![97u8, 108, 108] && w != seq![115u8] && w
                    != seq![115u8, 105, 109, 98, 97, 100] && w != seq![110u8] && w != seq![
                    110u8,
                    101,
                    100,
                ] && w != seq![118u8] && w != seq![118u8, 105, 122, 105, 101, 114]);
            }
            None
        }
    }
}

/// Configuration for SESAME queries.
#[derive(Debug)]
pub struct SesameConfig {
    /// The SESAME database to query.
    pub database: SesameDatabase,
    /// The URL at which the SESAME service is hosted.
    pub urls: Vec<String>,
}

impl SesameConfig {
    /// Builds a configuration from an already-parsed database choice
    /// and service locations; at least one location must be present.
    pub fn from_parts(database: SesameDatabase, urls: Vec<String>) -> (r: Result<
        SesameConfig,
        FitsHeaderError,
    >)
        ensures
            match r {
                Ok(c) => urls@.len() > 0 && c.database == database && c.urls@ == urls@,
                Err(_) => urls@.len() == 0,
            },
    {
        if urls.len() == 0 {
            return Err(FitsHeaderError::DeserializationError {
                found: Vec::new(),
                intent: String::from_str("service location list"),
            });
        }
        Ok(SesameConfig { database, urls })
    }
}

impl Default for SesameConfig {
    /// The default configuration: query all databases at the two
    /// public mirrors.
    fn default() -> (r: SesameConfig)
        ensures
            r.database == SesameDatabase::All,
            r.urls@.len() == 2,
            r.urls@[0]@ == "http://cdsweb.u-strasbg.fr/cgi-bin/nph-sesame/"@,
            r.urls@[1]@ == "http://vizier.cfa.harvard.edu/viz-bin/nph-sesame/"@,
    {
        let mut urls: Vec<String> = Vec::new();
        urls.push(String::from_str("http://cdsweb.u-strasbg.fr/cgi-bin/nph-sesame/"));
        urls.push(String::from_str("http://vizier.cfa.harvard.edu/viz-bin/nph-sesame/"));
        SesameConfig { database: SesameDatabase::All, urls }
    }
}

} // verus!
