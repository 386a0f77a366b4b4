//! The super-image builder's planning half: the partition map read out
//! of the definition file, and the exact argument list handed to the
//! external image composer.

use vstd::prelude::*;

use vstd::string::StringExecFns;

use crate::strings::u64_to_dec;

verus! {

/// Errors of the definition reader. Both variants carry the reporting
/// text of the failure.
#[derive(Clone, Debug, PartialEq, Eq)]
pub enum JsonParseError {
    FileError(String),
    JsonError(String),
}

/// The metadata block of a partition map.
#[derive(Clone, Debug, PartialEq)]
pub struct SuperMeta {
    pub path: String,
    pub size: String,
}

/// One block device of a partition map.
#[derive(Clone, Debug, PartialEq)]
pub struct BlockDevice {
    pub block_size: String,
    pub name: String,
    pub alignment: String,
    pub size: String,
}

/// One update group of a partition map.
#[derive(Clone, Debug, PartialEq)]
pub struct Group {
    pub name: String,
    pub maximum_size: String,
}

/// One partition of a partition map.
#[derive(Clone, Debug, PartialEq)]
pub struct Partition {
    pub is_dynamic: bool,
    pub name: String,
    pub group_name: String,
    pub path: String,
    pub size: String,
}

/// A whole partition map definition.
#[derive(Clone, Debug, PartialEq)]
pub struct PartitionConfig {
    pub super_meta: SuperMeta,
    pub nv_text: String,
    pub block_devices: Vec<BlockDevice>,
    pub groups: Vec<Group>,
    pub nv_id: String,
    pub partitions: Vec<Partition>,
}

/// The group arguments: one `--group=name:maximum` per group that names
/// a maximum size.
pub open spec fn spec_group_args(gs: Seq<Group>) -> Seq<Seq<char>>
    decreases gs.len(),
{
    if gs.len() == 0 {
        Seq::empty()
    } else {
        (if gs[0].maximum_size@.len() > 0 {
            seq!["--group="@ + gs[0].name@ + ":"@ + gs[0].maximum_size@]
        } else {
            Seq::<Seq<char>>::empty()
        }) + spec_group_args(gs.drop_first())
    }
}

/// The partition arguments: sized partitions are read-only with their
/// image attached; unsized ones are declared empty.
pub open spec fn spec_partition_args(ps: Seq<Partition>) -> Seq<Seq<char>>
    decreases ps.len(),
{
    if ps.len() == 0 {
        Seq::empty()
    } else {
        (if ps[0].size@.len() == 0 {
            seq!["--partition"@, ps[0].name@ + ":none:0:"@ + ps[0].group_name@]
        } else {
            seq![
                "--partition"@,
                ps[0].name@ + ":readonly:"@ + ps[0].size@ + ":"@ + ps[0].group_name@,
                "--image"@,
                ps[0].name@ + "="@ + ps[0].path@,
            ]
        }) + spec_partition_args(ps.drop_first())
    }
}

/// The whole argument list the image composer is run with.
pub open spec fn spec_lpmake_args(c: PartitionConfig) -> Seq<Seq<char>> {
    seq![
        "--device-size="@ + c.block_devices[0].size@,
        "--metadata-size="@ + c.super_meta.size@,
        "--metadata-slots="@ + crate::strings::spec_dec(c.groups.len() as nat),
        "--super-name="@ + c.block_devices[0].name@,
        "--virtual-ab"@,
        "--block-size="@ + c.block_devices[0].block_size@,
        "--sparse"@,
    ] + spec_group_args(c.groups@) + spec_partition_args(c.partitions@) + seq![
        "-F"@,
        "--output"@,
        "IMAGES/super.img"@,
    ]
}

/// The view of an argument vector.
pub open spec fn spec_args_view(v: Seq<String>) -> Seq<Seq<char>> {
    Seq::new(v.len(), |i: int| v[i]@)
}

/// Extending the group list extends its arguments.
proof fn lemma_group_args_take_step(gs: Seq<Group>, i: int)
    requires
        0 < i <= gs.len(),
    ensures
        spec_group_args(gs.take(i)) == spec_group_args(gs.take(i - 1)) + (if gs[i - 1
        ].maximum_size@.len() > 0 {
            seq!["--group="@ + gs[i - 1].name@ + ":"@ + gs[i - 1].maximum_size@]
        } else {
            Seq::<Seq<char>>::empty()
        }),
    decreases i,
{
    if i == 1 {
        assert(gs.take(1).drop_first() =~= Seq::<Group>::empty());
        assert(gs.take(0) =~= Seq::<Group>::empty());
        assert(gs.take(1)[0] == gs[0]);
        assert(spec_group_args(gs.take(1)) =~= spec_group_args(gs.take(0)) + (if gs[
            0].maximum_size@.len() > 0 {
            seq!["--group="@ + gs[0].name@ + ":"@ + gs[0].maximum_size@]
        } else {
            Seq::<Seq<char>>::empty()
        }));
    } else {
        lemma_group_args_take_step(gs.drop_first(), i - 1);
        assert(gs.take(i).drop_first() =~= gs.drop_first().take(i - 1));
        assert(gs.take(i - 1).drop_first() =~= gs.drop_first().take(i - 2));
        assert(gs.drop_first()[i - 2] == gs[i - 1]);
        assert(gs.take(i)[0] == gs[0] && gs.take(i - 1)[0] == gs[0]);
        assert(spec_group_args(gs.take(i)) =~= spec_group_args(gs.take(i - 1)) + (if gs[i - 1
        ].maximum_size@.len() > 0 {
            seq!["--group="@ + gs[i - 1].name@ + ":"@ + gs[i - 1].maximum_size@]
        } else {
            Seq::<Seq<char>>::empty()
        }));
    }
}

/// Extending the partition list extends its arguments.
proof fn lemma_partition_args_take_step(ps: Seq<Partition>, i: int)
    requires
        0 < i <= ps.len(),
    ensures
        spec_partition_args(ps.take(i)) == spec_partition_args(ps.take(i - 1)) + (if ps[i - 1
        ].size@.len() == 0 {
            seq!["--partition"@, ps[i - 1].name@ + ":none:0:"@ + ps[i - 1].group_name@]
        } else {
            seq![
                "--partition"@,
                ps[i - 1].name@ + ":readonly:"@ + ps[i - 1].size@ + ":"@ + ps[i - 1].group_name@,
                "--image"@,
                ps[i - 1].name@ + "="@ + ps[i - 1].path@,
            ]
        }),
    decreases i,
{
    if i == 1 {
        assert(ps.take(1).drop_first() =~= Seq::<Partition>::empty());
        assert(ps.take(0) =~= Seq::<Partition>::empty());
        assert(ps.take(1)[0] == ps[0]);
        assert(spec_partition_args(ps.take(1)) =~= spec_partition_args(ps.take(0)) + (if ps[
            0].size@.len() == 0 {
            seq!["--partition"@, ps[0].name@ + ":none:0:"@ + ps[0].group_name@]
        } else {
            seq![
                "--partition"@,
                ps[0].name@ + ":readonly:"@ + ps[0].size@ + ":"@ + ps[0].group_name@,
                "--image"@,
                ps[0].name@ + "="@ + ps[0].path@,
            ]
        }));
    } else {
        lemma_partition_args_take_step(ps.drop_first(), i - 1);
        assert(ps.take(i).drop_first() =~= ps.drop_first().take(i - 1));
        assert(ps.take(i - 1).drop_first() =~= ps.drop_first().take(i - 2));
        assert(ps.drop_first()[i - 2] == ps[i - 1]);
        assert(ps.take(i)[0] == ps[0] && ps.take(i - 1)[0] == ps[0]);
        assert(spec_partition_args(ps.take(i)) =~= spec_partition_args(ps.take(i - 1)) + (if ps[i
            - 1].size@.len() == 0 {
            seq!["--partition"@, ps[i - 1].name@ + ":none:0:"@ + ps[i - 1].group_name@]
        } else {
            seq![
                "--partition"@,
                ps[i - 1].name@ + ":readonly:"@ + ps[i - 1].size@ + ":"@ + ps[i - 1].group_name@,
                "--image"@,
                ps[i - 1].name@ + "="@ + ps[i - 1].path@,
            ]
        }));
    }
}

/// Plan the image composer's invocation: the exact argument list for a
/// partition map. Nothing can be planned for a map with no block device
/// or no group.
pub fn lpmake_args(c: &PartitionConfig) -> (r: Option<Vec<String>>)
    ensures
        r is Some <==> (c.block_devices@.len() > 0 && c.groups@.len() > 0),
        r matches Some(args) ==> spec_args_view(args@) == spec_lpmake_args(*c),
{
    if c.block_devices.len() == 0 || c.groups.len() == 0 {
        return None;
    }
    let mut args: Vec<String> = Vec::new();
    let mut a = String::from_str("--device-size=");
    a.append(c.block_devices[0].size.as_str());
    args.push(a);
    let mut a = String::from_str("--metadata-size=");
    a.append(c.super_meta.size.as_str());
    args.push(a);
    let mut a = String::from_str("--metadata-slots=");
    let slots = u64_to_dec(c.groups.len() as u64);
    a.append(slots.as_str());
    args.push(a);
    let mut a = String::from_str("--super-name=");
    a.append(c.block_devices[0].name.as_str());
    args.push(a);
    args.push(String::from_str("--virtual-ab"));
    let mut a = String::from_str("--block-size=");
    a.append(c.block_devices[0].block_size.as_str());
    args.push(a);
    args.push(String::from_str("--sparse"));
    let ghost head = seq![
        "--device-size="@ + c.block_devices[0].size@,
        "--metadata-size="@ + c.super_meta.size@,
        "--metadata-slots="@ + crate::strings::spec_dec(c.groups@.len() as nat),
        "--super-name="@ + c.block_devices[0].name@,
        "--virtual-ab"@,
        "--block-size="@ + c.block_devices[0].block_size@,
        "--sparse"@,
    ];
    proof {
        assert(spec_args_view(args@) =~= head);
    }
    let mut i: usize = 0;
    while i < c.groups.len()
        invariant
            i <= c.groups@.len(),
            spec_args_view(args@) == head + spec_group_args(c.groups@.take(i as int)),
        decreases c.groups@.len() - i,
    {
        let ghost old_args = args@;
        let ghost gv: Seq<char> = "--group="@ + c.groups@[i as int].name@ + ":"@ + c.groups@[
            i as int].maximum_size@;
        if c.groups[i].maximum_size.as_str().unicode_len() > 0 {
            let mut g = String::from_str("--group=");
            g.append(c.groups[i].name.as_str());
            g.append(":");
            g.append(c.groups[i].maximum_size.as_str());
            proof {
                assert(g@ == gv);
            }
            args.push(g);
            proof {
                assert(spec_args_view(args@) =~= spec_args_view(old_args) + seq![gv]);
            }
        }
        i = i + 1;
        proof {
            lemma_group_args_take_step(c.groups@, i as int);
            assert(spec_args_view(args@) =~= head + spec_group_args(c.groups@.take(i as int)));
        }
    }
    proof {
        assert(c.groups@.take(c.groups@.len() as int) =~= c.groups@);
    }
    let ghost mid = head + spec_group_args(c.groups@);
    let mut j: usize = 0;
    while j < c.partitions.len()
        invariant
            j <= c.partitions@.len(),
            spec_args_view(args@) == mid + spec_partition_args(c.partitions@.take(j as int)),
        decreases c.partitions@.len() - j,
    {
        let ghost old_args = args@;
        if c.partitions[j].size.as_str().unicode_len() == 0 {
            args.push(String::from_str("--partition"));
            let mut p = String::new();
            p.append(c.partitions[j].name.as_str());
            p.append(":none:0:");
            p.append(c.partitions[j].group_name.as_str());
            let ghost pv = c.partitions@[j as int].name@ + ":none:0:"@ + c.partitions@[
                j as int].group_name@;
            proof {
                assert(p@ =~= pv);
            }
            args.push(p);
            proof {
                assert(spec_args_view(args@) =~= spec_args_view(old_args) + seq![
                    "--partition"@,
                    pv,
                ]);
            }
        } else {
            args.push(String::from_str("--partition"));
            let mut p = String::new();
            p.append(c.partitions[j].name.as_str());
            p.append(":readonly:");
            p.append(c.partitions[j].size.as_str());
            p.append(":");
            p.append(c.partitions[j].group_name.as_str());
            let ghost pv = c.partitions@[j as int].name@ + ":readonly:"@ + c.partitions@[
                j as int].size@ + ":"@ + c.partitions@[j as int].group_name@;
            proof {
                assert(p@ =~= pv);
            }
            args.push(p);
            args.push(String::from_str("--image"));
            let mut im = String::new();
            im.append(c.partitions[j].name.as_str());
            im.append("=");
            im.append(c.partitions[j].path.as_str());
            let ghost imv = c.partitions@[j as int].name@ + "="@ + c.partitions@[
                j as int].path@;
            proof {
                assert(im@ =~= imv);
            }
            args.push(im);
            proof {
                assert(spec_args_view(args@) =~= spec_args_view(old_args) + seq![
                    "--partition"@,
                    pv,
                    "--image"@,
                    imv,
                ]);
            }
        }
        j = j + 1;
        proof {
            lemma_partition_args_take_step(c.partitions@, j as int);
            assert(spec_args_view(args@) =~= mid + spec_partition_args(
                c.partitions@.take(j as int),
            ));
        }
    }
    proof {
        assert(c.partitions@.take(c.partitions@.len() as int) =~= c.partitions@);
    }
    args.push(String::from_str("-F"));
    args.push(String::from_str("--output"));
    args.push(String::from_str("IMAGES/super.img"));
    proof {
        assert(spec_args_view(args@) =~= spec_lpmake_args(*c));
    }
    Some(args)
}

} // verus!
