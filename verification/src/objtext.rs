//! Mesh-file text assembly: the companion material file's contents, and the
//! two material directives spliced into a serialized mesh text — a
//! `mtllib` line prepended, and a `usemtl` line inserted before the first
//! face line.

use vstd::prelude::*;

verus! {

/// The bytes of `"newmtl material\nmap_Kd "`.
pub open spec fn newmtl_prefix() -> Seq<u8> {
    seq![
        110u8, 101u8, 119u8, 109u8, 116u8, 108u8, 32u8, 109u8, 97u8, 116u8, 101u8, 114u8, 105u8, 97u8, 108u8,
        10u8, 109u8, 97u8, 112u8, 95u8, 75u8, 100u8, 32u8,
    ]
}

/// The bytes of `"mtllib "`.
pub open spec fn mtllib_prefix() -> Seq<u8> {
    seq![109u8, 116u8, 108u8, 108u8, 105u8, 98u8, 32u8]
}

/// The bytes of `"usemtl material\n"`.
pub open spec fn usemtl_line() -> Seq<u8> {
    seq![
        117u8, 115u8, 101u8, 109u8, 116u8, 108u8, 32u8, 109u8, 97u8, 116u8, 101u8, 114u8, 105u8, 97u8, 108u8,
        10u8,
    ]
}

/// The `mtllib` line naming the material library file.
pub open spec fn mtllib_line(name: Seq<u8>) -> Seq<u8> {
    mtllib_prefix() + name + seq![10u8]
}

/// The first position `i` with a newline at `i` followed by `f`: the start
/// of the first face line, if any.
pub open spec fn find_f_line(s: Seq<u8>, i: nat) -> Option<int>
    decreases s.len() - i,
{
    if i + 1 >= s.len() {
        None
    } else if s[i as int] == 10u8 && s[i as int + 1] == 102u8 {
        Some(i as int)
    } else {
        find_f_line(s, i + 1)
    }
}

/// The text with `usemtl material` inserted before its first face line,
/// or unchanged when no face line exists.
pub open spec fn with_usemtl(s: Seq<u8>) -> Seq<u8> {
    match find_f_line(s, 0) {
        Option::None => s,
        Option::Some(p) => s.take(p + 1) + usemtl_line() + s.skip(p + 1),
    }
}

/// Builds the companion material file's contents: a `newmtl` directive and
/// a `map_Kd` line naming the texture image.
pub fn mtl_contents(png_name: &Vec<u8>) -> (r: Vec<u8>)
    ensures
        r@ == newmtl_prefix() + png_name@ + seq![10u8],
{
    let mut out: Vec<u8> = Vec::new();
    out.push(110u8);
    out.push(101u8);
    out.push(119u8);
    out.push(109u8);
    out.push(116u8);
    out.push(108u8);
    out.push(32u8);
    out.push(109u8);
    out.push(97u8);
    out.push(116u8);
    out.push(101u8);
    out.push(114u8);
    out.push(105u8);
    out.push(97u8);
    out.push(108u8);
    out.push(10u8);
    out.push(109u8);
    out.push(97u8);
    out.push(112u8);
    out.push(95u8);
    out.push(75u8);
    out.push(100u8);
    out.push(32u8);
    proof {
        assert(out@ =~= newmtl_prefix());
    }
    let mut i: usize = 0;
    while i < png_name.len()
        invariant
            i <= png_name@.len(),
            out@ == newmtl_prefix() + png_name@.subrange(0, i as int),
        decreases png_name@.len() - i,
    {
        out.push(png_name[i]);
        proof {
            assert(newmtl_prefix() + png_name@.subrange(0, i as int) + seq![png_name@[i as int]]
                =~= newmtl_prefix() + png_name@.subrange(0, i as int + 1));
        }
        i = i + 1;
    }
    out.push(10u8);
    proof {
        assert(png_name@.subrange(0, png_name@.len() as int) =~= png_name@);
        assert(out@ =~= newmtl_prefix() + png_name@ + seq![10u8]);
    }
    out
}

/// Prepends the `mtllib` line naming the material library and inserts
/// `usemtl material` before the first face line of the combined text,
/// exactly as `with_usemtl` describes.
pub fn attach_material_headers(obj: &Vec<u8>, mtl_name: &Vec<u8>) -> (r: Vec<u8>)
    ensures
        r@ == with_usemtl(mtllib_line(mtl_name@) + obj@),
{
    let mut combined: Vec<u8> = Vec::new();
    combined.push(109u8);
    combined.push(116u8);
    combined.push(108u8);
    combined.push(108u8);
    combined.push(105u8);
    combined.push(98u8);
    combined.push(32u8);
    proof {
        assert(combined@ =~= mtllib_prefix());
    }
    let mut i: usize = 0;
    while i < mtl_name.len()
        invariant
            i <= mtl_name@.len(),
            combined@ == mtllib_prefix() + mtl_name@.subrange(0, i as int),
        decreases mtl_name@.len() - i,
    {
        combined.push(mtl_name[i]);
        proof {
            assert(mtllib_prefix() + mtl_name@.subrange(0, i as int) + seq![mtl_name@[i as int]]
                =~= mtllib_prefix() + mtl_name@.subrange(0, i as int + 1));
        }
        i = i + 1;
    }
    combined.push(10u8);
    let mut i: usize = 0;
    while i < obj.len()
        invariant
            i <= obj@.len(),
            combined@ == mtllib_prefix() + mtl_name@.subrange(0, mtl_name@.len() as int) + seq![
                10u8,
            ] + obj@.subrange(0, i as int),
        decreases obj@.len() - i,
    {
        combined.push(obj[i]);
        proof {
            assert(combined@.drop_last() + seq![obj@[i as int]] =~= mtllib_prefix()
                + mtl_name@.subrange(0, mtl_name@.len() as int) + seq![10u8] + obj@.subrange(
                0,
                i as int + 1,
            ));
        }
        i = i + 1;
    }
    let ghost full = mtllib_line(mtl_name@) + obj@;
    proof {
        assert(mtl_name@.subrange(0, mtl_name@.len() as int) =~= mtl_name@);
        assert(obj@.subrange(0, obj@.len() as int) =~= obj@);
        assert(combined@ =~= full);
    }
    // Search for the first face line.
    let n = combined.len();
    proof {
        assert(n >= 1);
    }
    let mut pos: usize = 0;
    let mut found = false;
    while pos + 1 < n
        invariant_except_break
            !found,
            find_f_line(combined@, pos as nat) == find_f_line(combined@, 0),
        invariant
            n == combined@.len(),
            1 <= n,
            pos < n,
        ensures
            pos < n,
            found ==> find_f_line(combined@, 0) == Option::Some(pos as int),
            !found ==> find_f_line(combined@, 0) is None,
        decreases n - pos,
    {
        if combined[pos] == 10u8 && combined[pos + 1] == 102u8 {
            found = true;
            break ;
        }
        pos = pos + 1;
    }
    if !found {
        proof {
            assert(with_usemtl(full) == full);
        }
        return combined;
    }
    // Copy up to and including the newline, splice in the directive, copy
    // the rest.
    let mut out: Vec<u8> = Vec::new();
    let mut j: usize = 0;
    while j <= pos
        invariant
            find_f_line(combined@, 0) == Option::Some(pos as int),
            n == combined@.len(),
            pos < n,
            j <= pos + 1,
            out@ == combined@.subrange(0, j as int),
        decreases pos + 1 - j,
    {
        out.push(combined[j]);
        proof {
            assert(combined@.subrange(0, j as int) + seq![combined@[j as int]] =~= combined@
                .subrange(0, j as int + 1));
        }
        j = j + 1;
    }
    out.push(117u8);
    out.push(115u8);
    out.push(101u8);
    out.push(109u8);
    out.push(116u8);
    out.push(108u8);
    out.push(32u8);
    out.push(109u8);
    out.push(97u8);
    out.push(116u8);
    out.push(101u8);
    out.push(114u8);
    out.push(105u8);
    out.push(97u8);
    out.push(108u8);
    out.push(10u8);
    proof {
        assert(out@ =~= combined@.subrange(0, pos as int + 1) + usemtl_line());
    }
    let mut j: usize = pos + 1;
    while j < n
        invariant
            find_f_line(combined@, 0) == Option::Some(pos as int),
            n == combined@.len(),
            pos < n,
            pos + 1 <= j <= n,
            out@ == combined@.subrange(0, pos as int + 1) + usemtl_line() + combined@.subrange(
                pos as int + 1,
                j as int,
            ),
        decreases n - j,
    {
        out.push(combined[j]);
        proof {
            assert(combined@.subrange(0, pos as int + 1) + usemtl_line() + combined@.subrange(
                pos as int + 1,
                j as int,
            ) + seq![combined@[j as int]] =~= combined@.subrange(0, pos as int + 1) + usemtl_line()
                + combined@.subrange(pos as int + 1, j as int + 1));
        }
        j = j + 1;
    }
    proof {
        assert(combined@.subrange(0, pos as int + 1) =~= full.take(pos as int + 1));
        assert(combined@.subrange(pos as int + 1, n as int) =~= full.skip(pos as int + 1));
        assert(out@ =~= with_usemtl(full));
    }
    out
}

} // verus!
