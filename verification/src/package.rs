//! The EDL package validator: classify the entries of the per-LUN plan
//! files and assemble the ordered flash plan, failing closed on any
//! missing asset.

use vstd::prelude::*;

use vstd::string::StringExecFns;

use crate::strings::str_eq;

verus! {

/// Errors of the package validator. Pattern errors carry the reporting
/// text of the scan that failed.
#[derive(Clone, Debug, PartialEq, Eq)]
pub enum CheckFileError {
    InvalidPath,
    DirectoryNotFound,
    GlobError(String),
    GlobIterError(String),
}

/// A validated package: the chosen partition-map definition, the plan
/// files found, the ordered per-partition documents, and the two flags
/// the orchestrator acts on.
pub struct EdlPackage {
    pub is_miss_file: bool,
    pub is_miss_super_image: bool,
    pub super_define: String,
    pub raw_program_files: Vec<String>,
    pub raw_programs: Vec<(String, String)>,
    pub patch_files: Vec<String>,
}

/// The labels whose entries need no image of their own.
pub open spec fn spec_skip_label(label: Seq<char>) -> bool {
    label == "super"@ || label == "ocdt"@ || label == "persist"@ || label == "secdata"@ || label
        == "oplusdycnvbk"@ || label == "oplusstanvbk_a"@
}

/// Whether a label is on the skip list.
pub fn is_skip_label(label: &str) -> (r: bool)
    ensures
        r == spec_skip_label(label@),
{
    str_eq(label, "super") || str_eq(label, "ocdt") || str_eq(label, "persist") || str_eq(
        label,
        "secdata",
    ) || str_eq(label, "oplusdycnvbk") || str_eq(label, "oplusstanvbk_a")
}

/// What the plan does with one entry.
#[derive(Clone, Copy, Debug, PartialEq, Eq, Structural)]
pub enum PlanAction {
    /// The super image is missing but will be built: keep the entry and
    /// remember to build.
    IncludeSuper,
    /// A skip-list entry: leave it out of the plan.
    Ignore,
    /// An ordinary entry with its image present: keep it.
    Include,
    /// An entry whose image is missing and not excusable: the package is
    /// incomplete.
    MissingAsset,
}

/// How one entry is classified: a missing `super` image will be built;
/// other missing images fail unless the label is on the skip list;
/// present images are kept unless the label is on the skip list.
pub open spec fn spec_classify(label: Seq<char>, file_missing: bool) -> PlanAction {
    if file_missing {
        if label == "super"@ {
            PlanAction::IncludeSuper
        } else if spec_skip_label(label) {
            PlanAction::Ignore
        } else {
            PlanAction::MissingAsset
        }
    } else {
        if spec_skip_label(label) {
            PlanAction::Ignore
        } else {
            PlanAction::Include
        }
    }
}

/// Classify one plan entry by its label and whether its image file is
/// missing.
pub fn classify_program_entry(label: &str, file_missing: bool) -> (r: PlanAction)
    ensures
        r == spec_classify(label@, file_missing),
{
    if file_missing {
        if str_eq(label, "super") {
            PlanAction::IncludeSuper
        } else if is_skip_label(label) {
            PlanAction::Ignore
        } else {
            PlanAction::MissingAsset
        }
    } else {
        if is_skip_label(label) {
            PlanAction::Ignore
        } else {
            PlanAction::Include
        }
    }
}

/// Whether some entry of a plan has a missing, inexcusable image.
pub open spec fn spec_some_asset_missing(items: Seq<(String, bool, String)>) -> bool {
    exists|k: int|
        0 <= k < items.len() && spec_classify(
            (#[trigger] items[k]).0@,
            items[k].1,
        ) is MissingAsset
}

/// Whether one of the first `n` entries asks for the super image to be
/// built.
pub open spec fn spec_super_needed_upto(items: Seq<(String, bool, String)>, n: int) -> bool {
    exists|k: int|
        0 <= k < n && spec_classify((#[trigger] items[k]).0@, items[k].1) is IncludeSuper
}

/// The flash plan of the first `n` entries: each entry classified as
/// included contributes its label and document, in order.
pub open spec fn spec_plan_kept(items: Seq<(String, bool, String)>) -> Seq<
    (Seq<char>, Seq<char>),
>
    decreases items.len(),
{
    if items.len() == 0 {
        Seq::empty()
    } else {
        (if spec_classify(items[0].0@, items[0].1) is IncludeSuper || spec_classify(
            items[0].0@,
            items[0].1,
        ) is Include {
            seq![(items[0].0@, items[0].2@)]
        } else {
            Seq::<(Seq<char>, Seq<char>)>::empty()
        }) + spec_plan_kept(items.drop_first())
    }
}

/// Extending the items extends the plan.
proof fn lemma_plan_kept_take_step(items: Seq<(String, bool, String)>, i: int)
    requires
        0 < i <= items.len(),
    ensures
        spec_plan_kept(items.take(i)) == spec_plan_kept(items.take(i - 1)) + (if spec_classify(
            items[i - 1].0@,
            items[i - 1].1,
        ) is IncludeSuper || spec_classify(items[i - 1].0@, items[i - 1].1) is Include {
            seq![(items[i - 1].0@, items[i - 1].2@)]
        } else {
            Seq::<(Seq<char>, Seq<char>)>::empty()
        }),
    decreases i,
{
    if i == 1 {
        assert(items.take(1).drop_first() =~= Seq::<(String, bool, String)>::empty());
        assert(items.take(0) =~= Seq::<(String, bool, String)>::empty());
        assert(items.take(1)[0] == items[0]);
        assert(spec_plan_kept(items.take(1)) =~= spec_plan_kept(items.take(0)) + (
        if spec_classify(items[0].0@, items[0].1) is IncludeSuper || spec_classify(
            items[0].0@,
            items[0].1,
        ) is Include {
            seq![(items[0].0@, items[0].2@)]
        } else {
            Seq::<(Seq<char>, Seq<char>)>::empty()
        }));
    } else {
        lemma_plan_kept_take_step(items.drop_first(), i - 1);
        assert(items.take(i).drop_first() =~= items.drop_first().take(i - 1));
        assert(items.take(i - 1).drop_first() =~= items.drop_first().take(i - 2));
        assert(items.drop_first()[i - 2] == items[i - 1]);
        assert(items.take(i)[0] == items[0] && items.take(i - 1)[0] == items[0]);
        assert(spec_plan_kept(items.take(i)) =~= spec_plan_kept(items.take(i - 1)) + (
        if spec_classify(items[i - 1].0@, items[i - 1].1) is IncludeSuper || spec_classify(
            items[i - 1].0@,
            items[i - 1].1,
        ) is Include {
            seq![(items[i - 1].0@, items[i - 1].2@)]
        } else {
            Seq::<(Seq<char>, Seq<char>)>::empty()
        }));
    }
}

/// Assemble the ordered flash plan out of classified entries. Each item
/// carries a label, whether its image is missing, and its single-entry
/// document. Fails exactly when some entry's image is missing without
/// excuse; otherwise the kept plan is exactly the included entries'
/// `(label, document)` pairs, in order, together with whether the super
/// image must be built first.
pub fn edl_collect_programs(items: &Vec<(String, bool, String)>) -> (r: Result<
    (Vec<(String, String)>, bool),
    CheckFileError,
>)
    ensures
        r is Err <==> spec_some_asset_missing(items@),
        r is Err ==> r->Err_0 == CheckFileError::InvalidPath,
        r matches Ok((kept, build_super)) ==> {
            &&& build_super == spec_super_needed_upto(items@, items@.len() as int)
            &&& crate::xml::spec_pairs_view(kept@) == spec_plan_kept(items@)
        },
{
    let mut kept: Vec<(String, String)> = Vec::new();
    let mut build_super = false;
    let mut i: usize = 0;
    proof {
        assert(spec_plan_kept(items@.take(0)) =~= Seq::<(Seq<char>, Seq<char>)>::empty());
        assert(crate::xml::spec_pairs_view(kept@) =~= spec_plan_kept(items@.take(0)));
    }
    while i < items.len()
        invariant
            i <= items@.len(),
            forall|k: int|
                0 <= k < i ==> !(spec_classify(
                    (#[trigger] items@[k]).0@,
                    items@[k].1,
                ) is MissingAsset),
            build_super == spec_super_needed_upto(items@, i as int),
            crate::xml::spec_pairs_view(kept@) == spec_plan_kept(items@.take(i as int)),
        decreases items@.len() - i,
    {
        let ghost old_kept = kept@;
        let action = classify_program_entry(items[i].0.as_str(), items[i].1);
        proof {
            lemma_plan_kept_take_step(items@, i + 1);
        }
        match action {
            PlanAction::IncludeSuper => {
                build_super = true;
                let pair = (items[i].0.clone(), items[i].2.clone());
                kept.push(pair);
                proof {
                    assert(crate::xml::spec_pairs_view(kept@) =~= spec_plan_kept(
                        items@.take(i + 1),
                    ));
                    assert(spec_super_needed_upto(items@, i + 1)) by {
                        assert(spec_classify(
                            (items@[i as int]).0@,
                            items@[i as int].1,
                        ) is IncludeSuper);
                    }
                }
            },
            PlanAction::Include => {
                let pair = (items[i].0.clone(), items[i].2.clone());
                kept.push(pair);
                proof {
                    assert(crate::xml::spec_pairs_view(kept@) =~= spec_plan_kept(
                        items@.take(i + 1),
                    ));
                    if spec_super_needed_upto(items@, i + 1) {
                        let k = choose|k: int|
                            0 <= k < i + 1 && spec_classify(
                                (#[trigger] items@[k]).0@,
                                items@[k].1,
                            ) is IncludeSuper;
                        assert(k < i);
                    }
                }
            },
            PlanAction::Ignore => {
                proof {
                    assert(crate::xml::spec_pairs_view(kept@) =~= spec_plan_kept(
                        items@.take(i + 1),
                    ));
                    if spec_super_needed_upto(items@, i + 1) {
                        let k = choose|k: int|
                            0 <= k < i + 1 && spec_classify(
                                (#[trigger] items@[k]).0@,
                                items@[k].1,
                            ) is IncludeSuper;
                        assert(k < i);
                    }
                }
            },
            PlanAction::MissingAsset => {
                proof {
                    assert(spec_classify(
                        (items@[i as int]).0@,
                        items@[i as int].1,
                    ) is MissingAsset);
                }
                return Err(CheckFileError::InvalidPath);
            },
        }
        i = i + 1;
    }
    proof {
        if spec_some_asset_missing(items@) {
            let k = choose|k: int|
                0 <= k < items@.len() && spec_classify(
                    (#[trigger] items@[k]).0@,
                    items@[k].1,
                ) is MissingAsset;
            assert(!(spec_classify((items@[k]).0@, items@[k].1) is MissingAsset));
        }
        assert(items@.take(items@.len() as int) =~= items@);
    }
    Ok((kept, build_super))
}

/// The plan definition to use: the last of the matches, which glob
/// reports in lexical order.
pub fn pick_super_define(files: &Vec<String>) -> (r: Option<String>)
    ensures
        files@.len() == 0 <==> r is None,
        files@.len() > 0 ==> (r matches Some(f) && f@ == files@.last()@),
{
    if files.len() == 0 {
        None
    } else {
        Some(files[files.len() - 1].clone())
    }
}

} // verus!
