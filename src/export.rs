//! Preparing a skin for the machine it runs on: image paths made absolute
//! under the machine's base directory, and the check that an asset looks
//! like an SVG file.
use vstd::prelude::*;

use crate::text::{
    chars_of, occurs_at, push_char, starts_with, starts_with_str, trim, trim_line,
};

verus! {

/// `s` with every backslash turned into a slash.
pub open spec fn forward_slashes(s: Seq<char>) -> Seq<char> {
    s.map_values(|c: char| if c == '\\' { '/' } else { c })
}

/// `s` with each occurrence of `pat`, taken from left to right without
/// overlap, replaced by `rep`, as `str::replace` does.
pub open spec fn replace_all(s: Seq<char>, pat: Seq<char>, rep: Seq<char>) -> Seq<char>
    decreases s.len(),
{
    if pat.len() == 0 || s.len() < pat.len() {
        s
    } else if s.take(pat.len() as int) == pat {
        rep + replace_all(s.skip(pat.len() as int), pat, rep)
    } else {
        seq![s[0]] + replace_all(s.drop_first(), pat, rep)
    }
}

/// What an image path in a skin becomes on the machine: `<path>images/`
/// turns into `<path>BASE/images/`, with BASE's backslashes made slashes.
pub open spec fn machine_text(content: Seq<char>, base: Seq<char>) -> Seq<char> {
    replace_all(content, "<path>images/"@, "<path>"@ + forward_slashes(base) + "/images/"@)
}

/// `s` with every backslash turned into a slash.
pub fn to_forward_slashes(s: &str) -> (r: String)
    ensures
        r@ == forward_slashes(s@),
{
    let v = chars_of(s);
    let mut r = String::new();
    let mut k: usize = 0;
    while k < v.len()
        invariant
            k <= v.len(),
            v@ == s@,
            r@ == forward_slashes(s@).take(k as int),
        decreases v.len() - k,
    {
        let c = v[k];
        push_char(&mut r, if c == '\\' { '/' } else { c });
        k = k + 1;
        assert(r@ =~= forward_slashes(s@).take(k as int));
    }
    assert(forward_slashes(s@).take(k as int) =~= forward_slashes(s@));
    r
}

proof fn lemma_replace_all_step(s: Seq<char>, pat: Seq<char>, rep: Seq<char>, i: int)
    requires
        pat.len() > 0,
        0 <= i < s.len(),
    ensures
        i + pat.len() <= s.len() && occurs_at(s, pat, i) ==> replace_all(
            s.subrange(i, s.len() as int),
            pat,
            rep,
        ) == rep + replace_all(s.subrange(i + pat.len(), s.len() as int), pat, rep),
        !(i + pat.len() <= s.len() && occurs_at(s, pat, i)) ==> replace_all(
            s.subrange(i, s.len() as int),
            pat,
            rep,
        ) == seq![s[i]] + replace_all(s.subrange(i + 1, s.len() as int), pat, rep),
{
    let t = s.subrange(i, s.len() as int);
    if i + pat.len() <= s.len() {
        assert(t.take(pat.len() as int) =~= s.subrange(i, i + pat.len()));
        assert(t.skip(pat.len() as int) =~= s.subrange(i + pat.len(), s.len() as int));
    } else {
        assert(t.len() < pat.len());
        assert(replace_all(t, pat, rep) == t);
        if i + 1 < s.len() {
            assert(s.subrange(i + 1, s.len() as int).len() < pat.len());
        }
        assert(t =~= seq![s[i]] + s.subrange(i + 1, s.len() as int));
    }
    assert(t.drop_first() =~= s.subrange(i + 1, s.len() as int));
}

/// `content` with its image paths made absolute under `base`.
pub fn machine_content(content: &str, base: &str) -> (r: String)
    ensures
        r@ == machine_text(content@, base@),
{
    let s = chars_of(content);
    let pat = chars_of("<path>images/");
    let mut rep = String::from_str("<path>");
    let fwd = to_forward_slashes(base);
    rep.append(fwd.as_str());
    rep.append("/images/");
    proof {
        reveal_strlit("<path>images/");
    }
    let ghost p = "<path>images/"@;
    let ghost rp = rep@;
    let mut out = String::new();
    let mut i: usize = 0;
    assert(s@.subrange(0, s.len() as int) =~= s@);
    assert(out@ + s@ =~= s@);
    while i < s.len()
        invariant
            i <= s.len(),
            s@ == content@,
            pat@ == p,
            p.len() == 13,
            rep@ == rp,
            out@ + replace_all(s@.subrange(i as int, s.len() as int), p, rp) == replace_all(
                s@,
                p,
                rp,
            ),
        decreases s.len() - i,
    {
        proof {
            lemma_replace_all_step(s@, p, rp, i as int);
        }
        let fits = pat.len() <= s.len() - i;
        let mut hit = fits;
        if fits {
            let mut j: usize = 0;
            while j < pat.len() && hit
                invariant
                    j <= pat.len(),
                    i + pat.len() <= s.len(),
                    hit ==> forall|m: int| 0 <= m < j ==> s@[i + m] == pat@[m],
                    !hit ==> !occurs_at(s@, pat@, i as int),
                decreases pat.len() - j + if hit { 1int } else { 0 },
            {
                if s[i + j] != pat[j] {
                    assert(s@.subrange(i as int, i + pat.len())[j as int] != pat@[j as int]);
                    hit = false;
                } else {
                    j = j + 1;
                }
            }
            if hit {
                assert(s@.subrange(i as int, i + pat.len()) =~= pat@);
            }
        }
        let ghost before = out@;
        if hit {
            out.append(rep.as_str());
            assert(out@ + replace_all(s@.subrange(i + pat.len(), s.len() as int), p, rp) =~= before
                + replace_all(s@.subrange(i as int, s.len() as int), p, rp));
            i = i + pat.len();
        } else {
            push_char(&mut out, s[i]);
            assert(out@ + replace_all(s@.subrange(i + 1, s.len() as int), p, rp) =~= before
                + replace_all(s@.subrange(i as int, s.len() as int), p, rp));
            i = i + 1;
        }
    }
    proof {
        assert(s@.subrange(i as int, s.len() as int) =~= Seq::<char>::empty());
        assert(replace_all(Seq::<char>::empty(), p, rp) == Seq::<char>::empty());
        assert(out@ + Seq::<char>::empty() =~= out@);
        assert(rp =~= "<path>"@ + forward_slashes(base@) + "/images/"@);
    }
    out
}

/// Whether a file's text looks like SVG: once trimmed, it begins with
/// `<?xml` or with `<svg`.
pub open spec fn looks_like_svg_text(content: Seq<char>) -> bool {
    starts_with(trim(content), "<?xml"@) || starts_with(trim(content), "<svg"@)
}

/// Whether `content` looks like an SVG file.
pub fn looks_like_svg(content: &str) -> (r: bool)
    ensures
        r == looks_like_svg_text(content@),
{
    let v = chars_of(content);
    let t = trim_line(&v);
    starts_with_str(&t, "<?xml") || starts_with_str(&t, "<svg")
}

} // verus!
