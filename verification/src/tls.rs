//! What is taken out of the PEM files of the TLS listener.

use vstd::prelude::*;

verus! {

/// What the byte vectors of a list hold.
pub open spec fn byte_views(items: Seq<Vec<u8>>) -> Seq<Seq<u8>> {
    items.map_values(|b: Vec<u8>| b@)
}

/// What the sections of a PEM file hold, or the words that refuse the file.
pub type Sections = Result<Seq<Seq<u8>>, Seq<char>>;

/// What a list of sections says.
pub open spec fn sections_view(r: Result<Vec<Vec<u8>>, String>) -> Sections {
    match r {
        Ok(items) => Ok(byte_views(items@)),
        Err(e) => Err(e@),
    }
}

// ---- rustls_pemfile ----

/// What `rustls_pemfile::certs` finds in a file.
pub uninterp spec fn pem_certs(bytes: Seq<u8>) -> Result<Seq<Seq<u8>>, Seq<char>>;

/// What `rustls_pemfile::pkcs8_private_keys` finds in a file.
pub uninterp spec fn pem_pkcs8_keys(bytes: Seq<u8>) -> Result<Seq<Seq<u8>>, Seq<char>>;

/// What `rustls_pemfile::rsa_private_keys` finds in a file.
pub uninterp spec fn pem_rsa_keys(bytes: Seq<u8>) -> Result<Seq<Seq<u8>>, Seq<char>>;

/// What `rustls_pemfile::ec_private_keys` finds in a file.
pub uninterp spec fn pem_ec_keys(bytes: Seq<u8>) -> Result<Seq<Seq<u8>>, Seq<char>>;

/// `rustls_pemfile::certs` on the bytes of a file: what it finds, or the words of its error,
/// depends on the bytes alone.
#[verifier::external_body]
fn find_certs(bytes: &Vec<u8>) -> (r: Result<Vec<Vec<u8>>, String>)
    ensures
        sections_view(r) == pem_certs(bytes@),
{
    rustls_pemfile::certs(&mut bytes.as_slice()).map_err(|e| e.to_string())
}

/// `rustls_pemfile::pkcs8_private_keys` on the bytes of a file: what it finds, or the words
/// of its error, depends on the bytes alone.
#[verifier::external_body]
fn find_pkcs8_keys(bytes: &Vec<u8>) -> (r: Result<Vec<Vec<u8>>, String>)
    ensures
        sections_view(r) == pem_pkcs8_keys(bytes@),
{
    rustls_pemfile::pkcs8_private_keys(&mut bytes.as_slice()).map_err(|e| e.to_string())
}

/// `rustls_pemfile::rsa_private_keys` on the bytes of a file: what it finds, or the words of
/// its error, depends on the bytes alone.
#[verifier::external_body]
fn find_rsa_keys(bytes: &Vec<u8>) -> (r: Result<Vec<Vec<u8>>, String>)
    ensures
        sections_view(r) == pem_rsa_keys(bytes@),
{
    rustls_pemfile::rsa_private_keys(&mut bytes.as_slice()).map_err(|e| e.to_string())
}

/// `rustls_pemfile::ec_private_keys` on the bytes of a file: what it finds, or the words of
/// its error, depends on the bytes alone.
#[verifier::external_body]
fn find_ec_keys(bytes: &Vec<u8>) -> (r: Result<Vec<Vec<u8>>, String>)
    ensures
        sections_view(r) == pem_ec_keys(bytes@),
{
    rustls_pemfile::ec_private_keys(&mut bytes.as_slice()).map_err(|e| e.to_string())
}

// ---- certificates ----

/// The certificates of the file at a path, or the words that refuse it.
pub open spec fn certificates_of(path: Seq<char>, found: Sections) -> Sections {
    match found {
        Err(e) => Err(path + ": "@ + e),
        Ok(items) => if items.len() == 0 {
            Err(path + " contained no certificates"@)
        } else {
            Ok(items)
        },
    }
}

fn refusal(path: &str, words: &str) -> (r: String)
    ensures
        r@ == path@ + words@,
{
    let mut e = path.to_owned();
    e.append(words);
    e
}

fn failure(path: &str, words: &str) -> (r: String)
    ensures
        r@ == path@ + ": "@ + words@,
{
    let mut e = refusal(path, ": ");
    e.append(words);
    e
}

/// Takes the certificates that were found in the file at a path: there has to be one.
pub fn certificates(path: &str, found: Result<Vec<Vec<u8>>, String>) -> (r: Result<
    Vec<Vec<u8>>,
    String,
>)
    ensures
        sections_view(r) == certificates_of(path@, sections_view(found)),
{
    match found {
        Err(e) => Err(failure(path, e.as_str())),
        Ok(items) => if items.len() == 0 {
            Err(refusal(path, " contained no certificates"))
        } else {
            Ok(items)
        },
    }
}

/// Reads the certificates out of the file at a path, which holds these bytes.
pub fn read_certificates(path: &str, bytes: &Vec<u8>) -> (r: Result<Vec<Vec<u8>>, String>)
    ensures
        sections_view(r) == certificates_of(path@, pem_certs(bytes@)),
{
    certificates(path, find_certs(bytes))
}

// ---- the private key ----

/// The private key of the file at a path, or the words that refuse it: the first key of the
/// first form of which there is one. A form that cannot be read stops the search.
pub open spec fn key_among(path: Seq<char>, forms: Seq<Sections>) -> Result<Seq<u8>, Seq<char>>
    decreases forms.len(),
{
    if forms.len() == 0 {
        Err(path + " contained no usable private key"@)
    } else {
        match forms[0] {
            Err(e) => Err(path + ": "@ + e),
            Ok(keys) => if keys.len() > 0 {
                Ok(keys[0])
            } else {
                key_among(path, forms.skip(1))
            },
        }
    }
}

/// What a key that was looked for says.
pub open spec fn key_view(r: Result<Vec<u8>, String>) -> Result<Seq<u8>, Seq<char>> {
    match r {
        Ok(k) => Ok(k@),
        Err(e) => Err(e@),
    }
}

/// What each of some results says.
pub open spec fn all_sections(forms: Seq<Result<Vec<Vec<u8>>, String>>) -> Seq<Sections> {
    forms.map_values(|f: Result<Vec<Vec<u8>>, String>| sections_view(f))
}

/// Takes the private key out of what was found in the file at a path, form by form. Each
/// form is looked at in turn, so that a change of the key's type does not stop the service.
pub fn private_key(path: &str, forms: &Vec<Result<Vec<Vec<u8>>, String>>) -> (r: Result<
    Vec<u8>,
    String,
>)
    ensures
        key_view(r) == key_among(path@, all_sections(forms@)),
{
    let ghost all = all_sections(forms@);
    let mut i: usize = 0;
    assert(all.skip(0) =~= all);
    while i < forms.len()
        invariant
            i <= forms@.len(),
            all == all_sections(forms@),
            key_among(path@, all) == key_among(path@, all.skip(i as int)),
        decreases forms@.len() - i,
    {
        assert(all.skip(i as int)[0] == sections_view(forms@[i as int]));
        assert(all.skip(i as int).skip(1) =~= all.skip(i + 1));
        match &forms[i] {
            Err(e) => {
                return Err(failure(path, e.as_str()));
            },
            Ok(keys) => {
                if keys.len() > 0 {
                    return Ok(keys[0].clone());
                }
            },
        }
        i += 1;
    }
    Err(refusal(path, " contained no usable private key"))
}

/// Reads the private key out of the file at a path, which holds these bytes: a PKCS#8 key,
/// else an RSA key, else an EC key.
pub fn read_private_key(path: &str, bytes: &Vec<u8>) -> (r: Result<Vec<u8>, String>)
    ensures
        key_view(r) == key_among(
            path@,
            seq![pem_pkcs8_keys(bytes@), pem_rsa_keys(bytes@), pem_ec_keys(bytes@)],
        ),
{
    let mut forms: Vec<Result<Vec<Vec<u8>>, String>> = Vec::new();
    forms.push(find_pkcs8_keys(bytes));
    forms.push(find_rsa_keys(bytes));
    forms.push(find_ec_keys(bytes));
    assert(all_sections(forms@) =~= seq![
        pem_pkcs8_keys(bytes@),
        pem_rsa_keys(bytes@),
        pem_ec_keys(bytes@),
    ]);
    private_key(path, &forms)
}

/// A key of an earlier form is taken, whatever stands in the file of a later one.
pub proof fn law_earlier_forms_come_first(
    path: Seq<char>,
    forms: Seq<Sections>,
    others: Seq<Sections>,
    i: int,
)
    requires
        0 <= i < forms.len(),
        i < others.len(),
        forall|k: int| 0 <= k <= i ==> forms[k] == others[k],
        forms[i] is Err || forms[i]->Ok_0.len() > 0,
    ensures
        key_among(path, forms) == key_among(path, others),
    decreases forms.len(),
{
    if i > 0 && forms[0] is Ok && forms[0]->Ok_0.len() == 0 {
        assert forall|k: int| 0 <= k <= i - 1 implies forms.skip(1)[k] == others.skip(1)[k] by {
            assert(forms[k + 1] == others[k + 1]);
        }
        law_earlier_forms_come_first(path, forms.skip(1), others.skip(1), i - 1);
    }
}

} // verus!
