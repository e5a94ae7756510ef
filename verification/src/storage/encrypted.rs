//! Naming of encrypted segment files.
use vstd::prelude::*;

use crate::ocr::tsv::{
    lemma_split_on_append, lemma_split_on_nonempty, lemma_split_on_single, split_char, split_on,
};
use crate::text::{chars_equal, chars_of, copy_range, views_of};

verus! {

/// The last component of a `/`-separated path.
pub open spec fn file_name_of(path: Seq<char>) -> Seq<char> {
    split_on(path, '/').last()
}

/// The extensions of a file name, in order: the pieces after each dot but
/// the first piece (a leading dot belongs to the name, as in `.hidden`).
pub open spec fn extension_chain(name: Seq<char>) -> Seq<Seq<char>> {
    let n = if name.len() > 0 && name[0] == '.' {
        name.drop_first()
    } else {
        name
    };
    split_on(n, '.').drop_first()
}

/// A path names an encrypted file when `enc` is one of the extensions of
/// its last component (`x.mkv.enc`); a directory or a longer extension
/// (`.encache/`, `.encoder.`) does not count.
pub open spec fn is_encrypted_name(path: Seq<char>) -> bool {
    extension_chain(file_name_of(path)).contains("enc"@)
}

/// Check if a segment file is encrypted (has `.enc` in its extension chain).
pub fn is_encrypted(path: &str) -> (r: bool)
    ensures
        r == is_encrypted_name(path@),
{
    let chars = chars_of(path);
    let comps = split_char(chars.as_slice(), '/');
    proof {
        lemma_split_on_nonempty(path@, '/');
    }
    let last = &comps[comps.len() - 1];
    assert(views_of(comps@).last() == last@);
    let name: Vec<char> = if last.len() > 0 && last[0] == '.' {
        let n = copy_range(last.as_slice(), 1, last.len());
        assert(n@ =~= last@.drop_first());
        n
    } else {
        let n = copy_range(last.as_slice(), 0, last.len());
        assert(n@ =~= last@);
        n
    };
    let pieces = split_char(name.as_slice(), '.');
    let enc = chars_of("enc");
    let ghost chain = extension_chain(file_name_of(path@));
    assert(chain =~= views_of(pieces@).drop_first());
    let mut k: usize = 1;
    while k < pieces.len()
        invariant
            1 <= k <= pieces@.len() || pieces@.len() == 0,
            chain == views_of(pieces@).drop_first(),
            chain == extension_chain(file_name_of(path@)),
            enc@ == "enc"@,
            forall|j: int| 0 <= j < k - 1 && j < chain.len() ==> chain[j] != "enc"@,
        decreases pieces@.len() - k,
    {
        assert(chain[k - 1] == pieces@[k as int]@);
        if chars_equal(pieces[k].as_slice(), enc.as_slice()) {
            assert(chain[k - 1] == "enc"@);
            assert(chain.contains("enc"@));
            return true;
        }
        k = k + 1;
    }
    assert(!chain.contains("enc"@)) by {
        if chain.contains("enc"@) {
            let j = choose|j: int| 0 <= j < chain.len() && chain[j] == "enc"@;
            assert(j < k - 1 || pieces@.len() == 0);
        }
    }
    false
}

/// Appending `.enc` to a file name, as encryption does to the files it
/// writes, always gives a name recognized as encrypted, in any directory.
pub proof fn lemma_enc_suffix_is_encrypted(dir: Seq<char>, name: Seq<char>)
    requires
        name.len() > 0,
        forall|k: int| 0 <= k < name.len() ==> name[k] != '/',
    ensures
        is_encrypted_name(name + ".enc"@),
        is_encrypted_name(dir + "/"@ + name + ".enc"@),
{
    let full = name + ".enc"@;
    reveal_strlit(".enc");
    reveal_strlit("enc");
    reveal_strlit("/");
    assert forall|k: int| 0 <= k < full.len() implies full[k] != '/' by {
        if k >= name.len() {
            assert(full[k] == ".enc"@[k - name.len()]);
        }
    }
    lemma_split_on_single(full, '/');
    assert(file_name_of(full) == full);
    let m = if name[0] == '.' {
        name.drop_first()
    } else {
        name
    };
    assert(full[0] == name[0]);
    let n = if full.len() > 0 && full[0] == '.' {
        full.drop_first()
    } else {
        full
    };
    assert(n =~= m + seq!['.'] + "enc"@);
    lemma_split_on_append(m, "enc"@, '.');
    assert forall|k: int| 0 <= k < "enc"@.len() implies "enc"@[k] != '.' by {}
    lemma_split_on_single("enc"@, '.');
    lemma_split_on_nonempty(m, '.');
    let ps = split_on(m, '.');
    let chain = split_on(n, '.').drop_first();
    assert(split_on(n, '.') == ps + seq!["enc"@]);
    assert(chain[ps.len() - 1] == "enc"@);
    assert(chain.contains("enc"@));
    let path = dir + "/"@ + name + ".enc"@;
    assert(path =~= dir + seq!['/'] + full);
    lemma_split_on_append(dir, full, '/');
    assert(file_name_of(path) == full);
}

/// A file is encrypted when scanning a segment directory: it has an
/// extension, that extension is not `enc`, and it is `mkv` (video) or
/// `jsonl` (metadata sidecar).
pub open spec fn is_encryptable_extension(ext: Option<Seq<char>>) -> bool {
    match ext {
        Some(e) => e != "enc"@ && (e == "mkv"@ || e == "jsonl"@),
        None => false,
    }
}

/// Whether a file with this extension is encrypted by a directory sweep.
pub fn should_encrypt(ext: Option<&str>) -> (r: bool)
    ensures
        r == is_encryptable_extension(
            match ext {
                Some(e) => Some(e@),
                None => None,
            },
        ),
{
    match ext {
        None => false,
        Some(e) => {
            let c = chars_of(e);
            if chars_equal(c.as_slice(), chars_of("enc").as_slice()) {
                return false;
            }
            chars_equal(c.as_slice(), chars_of("mkv").as_slice()) || chars_equal(
                c.as_slice(),
                chars_of("jsonl").as_slice(),
            )
        },
    }
}


/// A directory sweep encrypts exactly the video segments and their sidecars:
/// files with extension `mkv` or `jsonl`, and nothing else.
pub proof fn lemma_sweep_targets(ext: Option<Seq<char>>)
    ensures
        is_encryptable_extension(ext) <==> (ext == Some("mkv"@) || ext == Some("jsonl"@)),
{
    reveal_strlit("mkv");
    reveal_strlit("jsonl");
    reveal_strlit("enc");
    assert("mkv"@[0] != "enc"@[0]);
    assert("jsonl"@[0] != "enc"@[0]);
    assert("mkv"@ != "enc"@);
    assert("jsonl"@ != "enc"@);
}

} // verus!
