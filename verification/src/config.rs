//! Configuration parsing and the typed configuration of a run.  A
//! configuration file holds `KEY = VALUE` lines; blank lines and lines
//! starting with `#` are skipped, and of two lines with one key the later
//! wins.  The validated `Config` carries every derived value the run needs:
//! full file paths, the trimmed subnet prefix, the reverse zone's name, and
//! the two ignore lists (entries trimmed and lowercased).

use vstd::prelude::*;

use crate::errors::ConfigKey;
use crate::errors::SyncError;
use crate::text::join_sep;
use crate::text::join_with;
use crate::text::lines_of;
use crate::text::lower_of;
use crate::text::skip_char_end;
use crate::text::split_char;
use crate::text::split_char_str;
use crate::text::split_lines;
use crate::text::to_lowercase;
use crate::text::trim_end_char;
use crate::text::trim_of;
use crate::text::trimmed;
use crate::text::views_of;

verus! {

/// What one configuration line contributes: nothing for a blank line, a
/// comment line, or a line without `'='`; otherwise the trimmed key and the
/// trimmed remainder after the first `'='`.
pub open spec fn line_pair(l: Seq<char>) -> Option<(Seq<char>, Seq<char>)> {
    if trimmed(l).len() == 0 || (l.len() > 0 && l[0] == '#') {
        None
    } else {
        match l.index_of_first('=') {
            Some(i) => if 0 <= i < l.len() {
                Some((trimmed(l.subrange(0, i)), trimmed(l.subrange(i + 1, l.len() as int))))
            } else {
                // never taken: a found index lies inside the sequence
                None
            },
            None => None,
        }
    }
}

/// The key/value pairs of a sequence of lines, in order.
pub open spec fn pairs_of_lines(ls: Seq<Seq<char>>) -> Seq<(Seq<char>, Seq<char>)>
    decreases ls.len(),
{
    if ls.len() == 0 {
        Seq::empty()
    } else {
        pairs_of_lines(ls.drop_last()) + match line_pair(ls.last()) {
            Some(p) => seq![p],
            None => Seq::empty(),
        }
    }
}

/// The key/value pairs of a whole configuration text.
pub open spec fn config_pairs(content: Seq<char>) -> Seq<(Seq<char>, Seq<char>)> {
    pairs_of_lines(lines_of(content))
}

/// The views of a vector of string pairs.
pub open spec fn pair_views(ps: Seq<(String, String)>) -> Seq<(Seq<char>, Seq<char>)> {
    ps.map_values(|p: (String, String)| (p.0@, p.1@))
}

fn line_pair_of(l: &str) -> (r: Option<(String, String)>)
    ensures
        r is Some <==> line_pair(l@) is Some,
        r is Some ==> (r.unwrap().0@, r.unwrap().1@) == line_pair(l@).unwrap(),
{
    let t = trim_of(l);
    if t.as_str().unicode_len() == 0 {
        return None;
    }
    if l.unicode_len() > 0 && l.get_char(0) == '#' {
        return None;
    }
    let len = l.unicode_len();
    let mut i: usize = 0;
    while i < len && l.get_char(i) != '='
        invariant
            len == l@.len(),
            i <= len,
            forall|j: int| 0 <= j < i ==> l@[j] != '=',
        decreases len - i,
    {
        i += 1;
    }
    proof {
        l@.index_of_first_ensures('=');
        if i < len {
            assert(l@.index_of_first('=') == Some(i as int));
        } else {
            if l@.contains('=') {
                let w = choose|w: int| 0 <= w < l@.len() && l@[w] == '=';
                assert(l@[w] != '=');
            }
            assert(l@.index_of_first('=') is None);
        }
    }
    if i < len {
        let k = trim_of(l.substring_char(0, i));
        let v = trim_of(l.substring_char(i + 1, len));
        Some((k, v))
    } else {
        None
    }
}

/// Parses a configuration text into its key/value pairs, in file order.
pub fn parse_config_text(content: &str) -> (r: Vec<(String, String)>)
    ensures
        pair_views(r@) == config_pairs(content@),
{
    let lines = split_lines(content);
    let mut out: Vec<(String, String)> = Vec::new();
    let ghost lsv = views_of(lines@);
    let mut i: usize = 0;
    proof {
        assert(pair_views(out@) =~= pairs_of_lines(lsv.take(0)));
    }
    while i < lines.len()
        invariant
            i <= lines@.len(),
            lsv == views_of(lines@),
            pair_views(out@) == pairs_of_lines(lsv.take(i as int)),
        decreases lines@.len() - i,
    {
        let ghost before = pair_views(out@);
        match line_pair_of(lines[i].as_str()) {
            Some(p) => {
                let ghost pv = (p.0@, p.1@);
                out.push(p);
                proof {
                    assert(pair_views(out@) =~= before + seq![pv]);
                }
            },
            None => {},
        }
        proof {
            assert(lsv.take(i + 1).drop_last() =~= lsv.take(i as int));
            assert(lsv.take(i + 1).last() == lsv[i as int]);
            match line_pair(lsv[i as int]) {
                Some(p) => {
                    assert(pair_views(out@) =~= before + seq![p]);
                },
                None => {},
            }
        }
        i += 1;
    }
    proof {
        assert(lsv.take(lsv.len() as int) =~= lsv);
    }
    out
}

/// The value of `key`: of all pairs carrying it, the last one wins, as in a
/// map built by inserting the pairs in order.
pub open spec fn lookup(pairs: Seq<(Seq<char>, Seq<char>)>, key: Seq<char>) -> Option<Seq<char>>
    decreases pairs.len(),
{
    if pairs.len() == 0 {
        None
    } else if pairs.last().0 == key {
        Some(pairs.last().1)
    } else {
        lookup(pairs.drop_last(), key)
    }
}

pub fn get_value(pairs: &Vec<(String, String)>, key: &str) -> (r: Option<String>)
    ensures
        r is Some <==> lookup(pair_views(pairs@), key@) is Some,
        r is Some ==> r.unwrap()@ == lookup(pair_views(pairs@), key@).unwrap(),
{
    let k = key.to_owned();
    let ghost pv = pair_views(pairs@);
    let mut i: usize = pairs.len();
    proof {
        assert(pv.take(pairs@.len() as int) =~= pv);
    }
    while i > 0
        invariant
            i <= pairs@.len(),
            pv == pair_views(pairs@),
            k@ == key@,
            lookup(pv, key@) == lookup(pv.take(i as int), key@),
        decreases i,
    {
        i -= 1;
        proof {
            assert(pv.len() == pairs@.len());
            assert(pv.take(i + 1).drop_last() =~= pv.take(i as int));
            assert(pv.take(i + 1).last() == pv[i as int]);
            assert(pv[i as int] == (pairs@[i as int].0@, pairs@[i as int].1@));
        }
        if pairs[i].0 == k {
            proof {
                assert(lookup(pv.take(i + 1), key@) == Some(pv[i as int].1));
            }
            return Some(pairs[i].1.clone());
        }
    }
    proof {
        assert(pv.take(0) =~= Seq::<(Seq<char>, Seq<char>)>::empty());
    }
    None
}

/// The entries of a comma-separated ignore list: each piece trimmed and
/// lowercased.
pub open spec fn ignore_entries(v: Seq<char>) -> Seq<Seq<char>> {
    split_char(v, ',').map_values(|p: Seq<char>| lower_of(trimmed(p)))
}

/// Splits a comma-separated ignore list, trimming and lowercasing each entry.
pub fn split_ignore_list(v: &str) -> (r: Vec<String>)
    ensures
        views_of(r@) == ignore_entries(v@),
{
    let parts = split_char_str(v, ',');
    let mut out: Vec<String> = Vec::new();
    let mut i: usize = 0;
    while i < parts.len()
        invariant
            i <= parts@.len(),
            views_of(parts@) == split_char(v@, ','),
            views_of(out@) == ignore_entries(v@).take(i as int),
        decreases parts@.len() - i,
    {
        let ghost before = views_of(out@);
        let t = trim_of(parts[i].as_str());
        let e = to_lowercase(t.as_str());
        let ghost ev = e@;
        out.push(e);
        proof {
            let ent = ignore_entries(v@);
            assert(views_of(parts@)[i as int] == parts@[i as int]@);
            assert(ent[i as int] == lower_of(trimmed(split_char(v@, ',')[i as int])));
            assert(ev == ent[i as int]);
            assert(views_of(out@) =~= before + seq![ev]);
            assert(ent.take(i + 1) =~= ent.take(i as int) + seq![ent[i as int]]);
        }
        i += 1;
    }
    proof {
        assert(ignore_entries(v@).take(ignore_entries(v@).len() as int) =~= ignore_entries(v@));
    }
    out
}

/// The dot-separated pieces of `s`, in reverse order, rejoined with dots.
pub open spec fn reverse_dotted(s: Seq<char>) -> Seq<char> {
    join_sep(split_char(s, '.').reverse(), seq!['.'])
}

pub fn reverse_dotted_of(s: &str) -> (r: String)
    ensures
        r@ == reverse_dotted(s@),
{
    let parts = split_char_str(s, '.');
    let mut revd: Vec<String> = Vec::new();
    let n = parts.len();
    let mut i: usize = n;
    while i > 0
        invariant
            i <= n,
            n == parts@.len(),
            views_of(parts@) == split_char(s@, '.'),
            revd@.len() == n - i,
            forall|k: int| 0 <= k < n - i ==> views_of(revd@)[k] == views_of(parts@)[n - 1 - k],
        decreases i,
    {
        i -= 1;
        let ghost before = views_of(revd@);
        revd.push(parts[i].clone());
        proof {
            assert(views_of(revd@) =~= before + seq![parts@[i as int]@]);
            assert forall|k: int| 0 <= k < n - i implies views_of(revd@)[k] == views_of(
                parts@,
            )[n - 1 - k] by {
                if k < n - i - 1 {
                    assert(views_of(revd@)[k] == before[k]);
                } else {
                    assert(views_of(revd@)[k] == parts@[i as int]@);
                    assert(views_of(parts@)[i as int] == parts@[i as int]@);
                }
            }
        }
    }
    let r = join_with(&revd, ".");
    proof {
        assert(views_of(revd@) =~= split_char(s@, '.').reverse());
        reveal_strlit(".");
        assert((".")@ =~= seq!['.']);
    }
    r
}

/// The validated, typed configuration of one run, every derived value
/// already computed.
#[derive(Debug)]
pub struct Config {
    /// The reload command; `/usr/sbin/rndc` when the file names none.
    pub rndc_cmd: String,
    pub api_url: String,
    pub api_user: String,
    pub api_pass: String,
    /// The zone file directory; `/etc/bind` when the file names none.
    pub base_dir: String,
    pub zone_name: String,
    /// Full path of the forward zone's parent configuration file.
    pub main_conf: String,
    /// Full path of the forward host-records file.
    pub host_file: String,
    /// The subnet prefix, trailing dots trimmed.
    pub subnet_prefix: String,
    /// The reverse zone's name: the reversed prefix under `in-addr.arpa`.
    pub ptr_zone_name: String,
    /// Full path of the reverse zone's parent configuration file.
    pub ptr_conf: String,
    /// Full path of the reverse host-records file.
    pub ptr_file: String,
    pub ignored_hosts: Vec<String>,
    pub ignored_ptr: Vec<String>,
}

/// The first required key that the pairs do not define, in the order the
/// run needs them.
pub open spec fn first_missing_key(pv: Seq<(Seq<char>, Seq<char>)>) -> Option<ConfigKey> {
    if lookup(pv, "API_URL"@) is None {
        Some(ConfigKey::ApiUrl)
    } else if lookup(pv, "API_USER"@) is None {
        Some(ConfigKey::ApiUser)
    } else if lookup(pv, "API_PASS"@) is None {
        Some(ConfigKey::ApiPass)
    } else if lookup(pv, "ZONE_NAME"@) is None {
        Some(ConfigKey::ZoneName)
    } else if lookup(pv, "MAIN_CONF"@) is None {
        Some(ConfigKey::MainConf)
    } else if lookup(pv, "HOST_FILE"@) is None {
        Some(ConfigKey::HostFile)
    } else if lookup(pv, "SUBNET_PREFIX"@) is None {
        Some(ConfigKey::SubnetPrefix)
    } else if lookup(pv, "PTR_FILE"@) is None {
        Some(ConfigKey::PtrFile)
    } else {
        None
    }
}

fn path_join(base: &String, name: &str) -> (r: String)
    ensures
        r@ == base@ + "/"@ + name@,
{
    let mut r = base.clone();
    r.append("/");
    r.append(name);
    r
}

/// Builds the typed configuration from the parsed pairs.  Fails with the
/// first missing required key; fills in the documented defaults for the
/// reload command, the base directory and the ignore lists; and computes
/// every derived path and the reverse zone's name.
pub fn build_config(pairs: &Vec<(String, String)>) -> (r: Result<Config, SyncError>)
    ensures
        r is Ok <==> first_missing_key(pair_views(pairs@)) is None,
        r is Err ==> r->Err_0 == SyncError::MissingKey(
            first_missing_key(pair_views(pairs@)).unwrap(),
        ),
        r is Ok ==> ({
            let c = r->Ok_0;
            let pv = pair_views(pairs@);
            &&& c.rndc_cmd@ == if lookup(pv, "RNDC_CMD"@) is Some {
                lookup(pv, "RNDC_CMD"@).unwrap()
            } else {
                "/usr/sbin/rndc"@
            }
            &&& c.api_url@ == lookup(pv, "API_URL"@).unwrap()
            &&& c.api_user@ == lookup(pv, "API_USER"@).unwrap()
            &&& c.api_pass@ == lookup(pv, "API_PASS"@).unwrap()
            &&& c.base_dir@ == if lookup(pv, "BASE_DIR"@) is Some {
                lookup(pv, "BASE_DIR"@).unwrap()
            } else {
                "/etc/bind"@
            }
            &&& c.zone_name@ == lookup(pv, "ZONE_NAME"@).unwrap()
            &&& c.main_conf@ == c.base_dir@ + "/"@ + lookup(pv, "MAIN_CONF"@).unwrap()
            &&& c.host_file@ == c.base_dir@ + "/"@ + lookup(pv, "HOST_FILE"@).unwrap()
            &&& c.subnet_prefix@ == skip_char_end(lookup(pv, "SUBNET_PREFIX"@).unwrap(), '.')
            &&& c.ptr_zone_name@ == reverse_dotted(c.subnet_prefix@) + ".in-addr.arpa"@
            &&& c.ptr_conf@ == c.base_dir@ + "/db."@ + c.ptr_zone_name@
            &&& c.ptr_file@ == c.base_dir@ + "/"@ + lookup(pv, "PTR_FILE"@).unwrap()
            &&& views_of(c.ignored_hosts@) == if lookup(pv, "IGNORED_HOSTS"@) is Some {
                ignore_entries(lookup(pv, "IGNORED_HOSTS"@).unwrap())
            } else {
                Seq::<Seq<char>>::empty()
            }
            &&& views_of(c.ignored_ptr@) == if lookup(pv, "IGNORED_PTR"@) is Some {
                ignore_entries(lookup(pv, "IGNORED_PTR"@).unwrap())
            } else {
                Seq::<Seq<char>>::empty()
            }
        }),
{
    let api_url = match get_value(pairs, "API_URL") {
        Some(v) => v,
        None => {
            return Err(SyncError::MissingKey(ConfigKey::ApiUrl));
        },
    };
    let api_user = match get_value(pairs, "API_USER") {
        Some(v) => v,
        None => {
            return Err(SyncError::MissingKey(ConfigKey::ApiUser));
        },
    };
    let api_pass = match get_value(pairs, "API_PASS") {
        Some(v) => v,
        None => {
            return Err(SyncError::MissingKey(ConfigKey::ApiPass));
        },
    };
    let zone_name = match get_value(pairs, "ZONE_NAME") {
        Some(v) => v,
        None => {
            return Err(SyncError::MissingKey(ConfigKey::ZoneName));
        },
    };
    let main_conf_name = match get_value(pairs, "MAIN_CONF") {
        Some(v) => v,
        None => {
            return Err(SyncError::MissingKey(ConfigKey::MainConf));
        },
    };
    let host_file_name = match get_value(pairs, "HOST_FILE") {
        Some(v) => v,
        None => {
            return Err(SyncError::MissingKey(ConfigKey::HostFile));
        },
    };
    let subnet_prefix_raw = match get_value(pairs, "SUBNET_PREFIX") {
        Some(v) => v,
        None => {
            return Err(SyncError::MissingKey(ConfigKey::SubnetPrefix));
        },
    };
    let ptr_file_name = match get_value(pairs, "PTR_FILE") {
        Some(v) => v,
        None => {
            return Err(SyncError::MissingKey(ConfigKey::PtrFile));
        },
    };
    let rndc_cmd = match get_value(pairs, "RNDC_CMD") {
        Some(v) => v,
        None => "/usr/sbin/rndc".to_owned(),
    };
    let base_dir = match get_value(pairs, "BASE_DIR") {
        Some(v) => v,
        None => "/etc/bind".to_owned(),
    };
    let subnet_prefix = trim_end_char(subnet_prefix_raw.as_str(), '.');
    let mut ptr_zone_name = reverse_dotted_of(subnet_prefix.as_str());
    ptr_zone_name.append(".in-addr.arpa");
    let mut ptr_conf = base_dir.clone();
    ptr_conf.append("/db.");
    ptr_conf.append(ptr_zone_name.as_str());
    let ignored_hosts = match get_value(pairs, "IGNORED_HOSTS") {
        Some(v) => split_ignore_list(v.as_str()),
        None => Vec::new(),
    };
    let ignored_ptr = match get_value(pairs, "IGNORED_PTR") {
        Some(v) => split_ignore_list(v.as_str()),
        None => Vec::new(),
    };
    let main_conf = path_join(&base_dir, main_conf_name.as_str());
    let host_file = path_join(&base_dir, host_file_name.as_str());
    let ptr_file = path_join(&base_dir, ptr_file_name.as_str());
    proof {
        assert(views_of(Seq::<String>::empty()) =~= Seq::<Seq<char>>::empty());
    }
    Ok(
        Config {
            rndc_cmd,
            api_url,
            api_user,
            api_pass,
            base_dir,
            zone_name,
            main_conf,
            host_file,
            subnet_prefix,
            ptr_zone_name,
            ptr_conf,
            ptr_file,
            ignored_hosts,
            ignored_ptr,
        },
    )
}

} // verus!
