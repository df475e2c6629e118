use vstd::prelude::*;
use vstd::string::{StrSliceExecFns, StringExecFns};

verus! {

/// The `collect` command: from the names of the files in a directory, the
/// list of model files, one name per line.
pub struct Collect {}

/// Whether a file name has the extension `glb`: it ends in `.glb`, and that
/// dot is not the first character (a name such as `.glb` has no extension).
pub open spec fn is_model_name(name: Seq<char>) -> bool {
    name.len() > 4 && name.subrange(name.len() - 4, name.len() as int) == ".glb"@
}

/// The model file names among `names`, in the order given.
pub open spec fn model_names(names: Seq<Seq<char>>) -> Seq<Seq<char>>
    decreases names.len(),
{
    if names.len() == 0 {
        Seq::empty()
    } else if is_model_name(names.last()) {
        model_names(names.drop_last()).push(names.last())
    } else {
        model_names(names.drop_last())
    }
}

/// The lines of `lines` joined by newlines, with none after the last.
pub open spec fn joined(lines: Seq<Seq<char>>) -> Seq<char>
    decreases lines.len(),
{
    if lines.len() == 0 {
        Seq::empty()
    } else if lines.len() == 1 {
        lines[0]
    } else {
        joined(lines.drop_last()) + "\n"@ + lines.last()
    }
}

pub open spec fn text_views(s: Seq<String>) -> Seq<Seq<char>> {
    s.map_values(|t: String| t@)
}

impl Collect {
    /// Whether `name` is the name of a model file.
    pub fn is_model_file(name: &String) -> (r: bool)
        ensures
            r == is_model_name(name@),
    {
        let t = name.as_str();
        let n = t.unicode_len();
        if n <= 4 {
            return false;
        }
        let r = t.get_char(n - 4) == '.' && t.get_char(n - 3) == 'g' && t.get_char(n - 2) == 'l' && t.get_char(
            n - 1,
        ) == 'b';
        proof {
            let tail = name@.subrange(n - 4, n as int);
            reveal_strlit(".glb");
            if r {
                assert(tail =~= ".glb"@);
            } else {
                assert(tail != ".glb"@) by {
                    if tail == ".glb"@ {
                        assert(tail[0] == name@[n - 4]);
                        assert(tail[1] == name@[n - 3]);
                        assert(tail[2] == name@[n - 2]);
                        assert(tail[3] == name@[n - 1]);
                    }
                }
            }
        }
        r
    }

    /// The model files among `names`, in the order given.
    pub fn select_models(names: &Vec<String>) -> (r: Vec<String>)
        ensures
            text_views(r@) == model_names(text_views(names@)),
    {
        let mut r: Vec<String> = Vec::new();
        let mut i: usize = 0;
        while i < names.len()
            invariant
                i <= names@.len(),
                text_views(r@) == model_names(text_views(names@.subrange(0, i as int))),
            decreases names@.len() - i,
        {
            let ghost pre = text_views(names@.subrange(0, i as int + 1));
            assert(pre.drop_last() =~= text_views(names@.subrange(0, i as int)));
            assert(pre.last() == names@[i as int]@);
            if Self::is_model_file(&names[i]) {
                r.push(names[i].clone());
                assert(text_views(r@) =~= model_names(pre));
            }
            i += 1;
        }
        assert(names@.subrange(0, names@.len() as int) =~= names@);
        r
    }

    /// The text of the model list: one name per line.
    pub fn list_text(models: &Vec<String>) -> (r: String)
        ensures
            r@ == joined(text_views(models@)),
    {
        let mut r = String::from_str("");
        let mut i: usize = 0;
        proof {
            reveal_strlit("");
        }
        while i < models.len()
            invariant
                i <= models@.len(),
                r@ == joined(text_views(models@.subrange(0, i as int))),
            decreases models@.len() - i,
        {
            let ghost pre = text_views(models@.subrange(0, i as int + 1));
            assert(pre.drop_last() =~= text_views(models@.subrange(0, i as int)));
            if i > 0 {
                r.append("\n");
            }
            r.append(models[i].as_str());
            proof {
                if i == 0 {
                    assert(r@ =~= pre[0]);
                } else {
                    assert(r@ =~= joined(pre.drop_last()) + "\n"@ + pre.last());
                }
            }
            i += 1;
        }
        assert(models@.subrange(0, models@.len() as int) =~= models@);
        r
    }

    /// The text of the model list for a directory whose files have the names
    /// `names`.
    pub fn collect_models(names: &Vec<String>) -> (r: String)
        ensures
            r@ == joined(model_names(text_views(names@))),
    {
        let models = Self::select_models(names);
        Self::list_text(&models)
    }
}

} // verus!
