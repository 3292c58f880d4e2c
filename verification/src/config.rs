//! Configuration: defaults, the merge of the configuration files found
//! between the filesystem root and the working directory, and the decision
//! where the note root lies. Reading the files is the collaborator's part;
//! it hands the discovered layers in here, parent directories first, and
//! every decision on them is made in this module.
use vstd::prelude::*;

use crate::errors::Error;

verus! {

/// The abstract value of a [`Config`].
pub struct ConfigV {
    pub database_path: Seq<char>,
    pub editor_command: Seq<char>,
    pub root: Seq<char>,
}

/// The resolved configuration.
#[derive(Debug)]
pub struct Config {
    pub database_path: String,
    pub editor_command: String,
    pub root: String,
}

impl View for Config {
    type V = ConfigV;

    open spec fn view(&self) -> ConfigV {
        ConfigV {
            database_path: self.database_path@,
            editor_command: self.editor_command@,
            root: self.root@,
        }
    }
}

impl Default for Config {
    /// The built-in defaults, used where no configuration file says
    /// otherwise.
    fn default() -> (r: Self)
        ensures
            r@.database_path == "./.astronote.db"@,
            r@.editor_command == "vim"@,
            r@.root == "./"@,
    {
        Config {
            database_path: String::from_str("./.astronote.db"),
            editor_command: String::from_str("vim"),
            root: String::from_str("./"),
        }
    }
}

/// The abstract value of a [`ConfigLayer`].
pub struct LayerV {
    pub dir: Seq<char>,
    pub database_path: Option<Seq<char>>,
    pub editor_command: Option<Seq<char>>,
    pub root: Option<Seq<char>>,
}

/// One configuration file, as discovered by the collaborator: the directory
/// it sits in and the values it sets.
#[derive(Debug)]
pub struct ConfigLayer {
    pub dir: String,
    pub database_path: Option<String>,
    pub editor_command: Option<String>,
    pub root: Option<String>,
}

impl View for ConfigLayer {
    type V = LayerV;

    open spec fn view(&self) -> LayerV {
        LayerV {
            dir: self.dir@,
            database_path: match self.database_path {
                Some(ref v) => Some(v@),
                None => None,
            },
            editor_command: match self.editor_command {
                Some(ref v) => Some(v@),
                None => None,
            },
            root: match self.root {
                Some(ref v) => Some(v@),
                None => None,
            },
        }
    }
}

/// The views of the discovered layers, in merge order.
pub open spec fn layer_views(s: Seq<ConfigLayer>) -> Seq<LayerV> {
    s.map_values(|l: ConfigLayer| l@)
}

/// The last `database_path` a layer sets, if any: later (nearer) layers
/// override earlier ones.
pub open spec fn last_database_path(s: Seq<LayerV>) -> Option<Seq<char>>
    decreases s.len(),
{
    if s.len() == 0 {
        None
    } else {
        match s.last().database_path {
            Some(v) => Some(v),
            None => last_database_path(s.drop_last()),
        }
    }
}

/// The last `editor_command` a layer sets, if any.
pub open spec fn last_editor_command(s: Seq<LayerV>) -> Option<Seq<char>>
    decreases s.len(),
{
    if s.len() == 0 {
        None
    } else {
        match s.last().editor_command {
            Some(v) => Some(v),
            None => last_editor_command(s.drop_last()),
        }
    }
}

/// The last `root` a layer sets, with the directory of the file that set
/// it, if any.
pub open spec fn last_root(s: Seq<LayerV>) -> Option<(Seq<char>, Seq<char>)>
    decreases s.len(),
{
    if s.len() == 0 {
        None
    } else {
        match s.last().root {
            Some(v) => Some((s.last().dir, v)),
            None => last_root(s.drop_last()),
        }
    }
}

/// Where the note root lies. If some file sets `root`, the nearest such
/// setting wins: taken as is when absolute, else relative to the directory
/// of the file that set it. Otherwise the directory of the nearest
/// configuration file; with no file at all, the working directory. A
/// relative result is the caller's to canonicalize.
pub open spec fn config_root_chars(s: Seq<LayerV>, current_dir: Seq<char>) -> Seq<char> {
    match last_root(s) {
        Some((dir, v)) => if v.len() > 0 && v[0] == '/' {
            v
        } else {
            dir + "/"@ + v
        },
        None => if s.len() > 0 {
            s.last().dir
        } else {
            current_dir
        },
    }
}

impl Config {
    /// The configuration the discovered layers resolve to: for each value
    /// the nearest setting wins over the built-in default, and the root is
    /// decided as `config_root_chars` says.
    pub fn try_new(layers: &Vec<ConfigLayer>, current_dir: &str) -> (r: Result<Config, Error>)
        ensures
            r is Ok,
            r matches Ok(c) ==> {
                &&& c@.database_path == match last_database_path(layer_views(layers@)) {
                    Some(v) => v,
                    None => "./.astronote.db"@,
                }
                &&& c@.editor_command == match last_editor_command(layer_views(layers@)) {
                    Some(v) => v,
                    None => "vim"@,
                }
                &&& c@.root == config_root_chars(layer_views(layers@), current_dir@)
            },
    {
        let n = layers.len();
        let mut database_path: Option<String> = None;
        let mut editor_command: Option<String> = None;
        let mut root_val: Option<String> = None;
        let mut root_dir: Option<String> = None;
        let mut i: usize = 0;
        while i < n
            invariant
                i <= n == layers@.len(),
                match database_path {
                    Some(ref v) => last_database_path(
                        layer_views(layers@.subrange(0, i as int)),
                    ) == Some(v@),
                    None => last_database_path(layer_views(layers@.subrange(0, i as int)))
                        is None,
                },
                match editor_command {
                    Some(ref v) => last_editor_command(
                        layer_views(layers@.subrange(0, i as int)),
                    ) == Some(v@),
                    None => last_editor_command(layer_views(layers@.subrange(0, i as int)))
                        is None,
                },
                match (root_dir, root_val) {
                    (Some(ref d), Some(ref v)) => last_root(
                        layer_views(layers@.subrange(0, i as int)),
                    ) == Some((d@, v@)),
                    (None, None) => last_root(layer_views(layers@.subrange(0, i as int)))
                        is None,
                    _ => false,
                },
            decreases n - i,
        {
            let ghost prefix = layer_views(layers@.subrange(0, i as int));
            let ghost grown = layer_views(layers@.subrange(0, i + 1));
            proof {
                assert(layers@.subrange(0, i + 1).drop_last() =~= layers@.subrange(0, i as int));
                assert(grown.drop_last() =~= prefix);
                assert(grown.last() == layers@[i as int]@);
            }
            let layer = &layers[i];
            if let Some(v) = &layer.database_path {
                database_path = Some(v.clone());
            }
            if let Some(v) = &layer.editor_command {
                editor_command = Some(v.clone());
            }
            if let Some(v) = &layer.root {
                root_val = Some(v.clone());
                root_dir = Some(layer.dir.clone());
            }
            i += 1;
        }
        proof {
            assert(layers@.subrange(0, n as int) =~= layers@);
        }
        let database_path = match database_path {
            Some(v) => v,
            None => String::from_str("./.astronote.db"),
        };
        let editor_command = match editor_command {
            Some(v) => v,
            None => String::from_str("vim"),
        };
        let root = match (root_dir, root_val) {
            (Some(d), Some(v)) => {
                if v.as_str().unicode_len() > 0 && v.as_str().get_char(0) == '/' {
                    v
                } else {
                    let mut joined = d;
                    joined.append("/");
                    joined.append(v.as_str());
                    proof {
                        reveal_strlit("/");
                    }
                    joined
                }
            },
            _ => {
                if n > 0 {
                    layers[n - 1].dir.clone()
                } else {
                    String::from_str(current_dir)
                }
            },
        };
        proof {
            if n > 0 {
                assert(layer_views(layers@).last() == layers@[n - 1]@);
            }
        }
        Ok(Config { database_path, editor_command, root })
    }
}

} // verus!
