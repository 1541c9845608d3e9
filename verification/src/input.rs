use vstd::prelude::*;

verus! {

/// One answer record of a massdns response.
pub struct DnsAnswer {
    pub type_: String,
    pub name: String,
    pub data: String,
}

/// The `data` part of a massdns response.
pub struct DnsData {
    pub answers: Option<Vec<DnsAnswer>>,
}

/// One massdns NDJSON line, as read from its JSON.
pub struct DnsLine {
    pub status: String,
    pub data: Option<DnsData>,
}

/// The index of the first `A` answer at or after `i`.
pub open spec fn first_a_from(answers: Seq<DnsAnswer>, i: int) -> Option<int>
    decreases answers.len() - i,
{
    if i < 0 || i >= answers.len() {
        None
    } else if answers[i].type_@ == "A"@ {
        Some(i)
    } else {
        first_a_from(answers, i + 1)
    }
}

/// A host name without the trailing dot of its fully qualified form.
pub open spec fn strip_root_dot(name: Seq<char>) -> Seq<char> {
    if name.len() > 0 && name.last() == '.' {
        name.drop_last()
    } else {
        name
    }
}

/// The host and the address text of the first `A` answer of a `NOERROR`
/// response; none for any other shape.
pub open spec fn a_record_of(dns: DnsLine) -> Option<(Seq<char>, Seq<char>)> {
    if dns.status@ != "NOERROR"@ {
        None
    } else {
        match dns.data {
            None => None,
            Some(d) => match d.answers {
                None => None,
                Some(answers) => match first_a_from(answers@, 0) {
                    None => None,
                    Some(i) => Some((strip_root_dot(answers@[i].name@), answers@[i].data@)),
                },
            },
        }
    }
}

fn is_a_type(t: &String) -> (b: bool)
    ensures
        b == (t@ == "A"@),
{
    *t == "A".to_owned()
}

/// The host name without its trailing dot.
pub fn strip_trailing_dot(name: &str) -> (r: String)
    ensures
        r@ == strip_root_dot(name@),
{
    let n = name.unicode_len();
    if n > 0 && name.get_char(n - 1) == '.' {
        name.substring_char(0, n - 1).to_owned()
    } else {
        name.to_owned()
    }
}

impl DnsLine {
    /// The host (trailing dot removed) and the address text of the first
    /// `A` record of a `NOERROR` response; none for any other shape.
    pub fn first_a_record(&self) -> (r: Option<(String, String)>)
        ensures
            r is None <==> a_record_of(*self) is None,
            r matches Some((host, addr)) ==> a_record_of(*self) == Some((host@, addr@)),
    {
        if !(self.status == "NOERROR".to_owned()) {
            return None;
        }
        let data = match &self.data {
            Some(d) => d,
            None => return None,
        };
        let answers = match &data.answers {
            Some(a) => a,
            None => return None,
        };
        let mut i: usize = 0;
        while i < answers.len()
            invariant
                i <= answers@.len(),
                self.status@ == "NOERROR"@,
                self.data == Some(*data),
                data.answers == Some(*answers),
                first_a_from(answers@, 0) == first_a_from(answers@, i as int),
            decreases answers.len() - i,
        {
            if is_a_type(&answers[i].type_) {
                let host = strip_trailing_dot(answers[i].name.as_str());
                let addr = answers[i].data.clone();
                return Some((host, addr));
            }
            i = i + 1;
        }
        None
    }
}

/// Only the root dot comes off a host name: the result is the name itself
/// when it does not end in `.`, and otherwise the name without that one
/// last `.`.
pub proof fn law_strip_root_dot(name: Seq<char>)
    ensures
        (name.len() > 0 && name.last() == '.') ==> strip_root_dot(name).push('.') == name,
        !(name.len() > 0 && name.last() == '.') ==> strip_root_dot(name) == name,
        strip_root_dot(name).len() + 1 >= name.len(),
        strip_root_dot(name) == name.take(strip_root_dot(name).len() as int),
{
    if name.len() > 0 && name.last() == '.' {
        assert(name.drop_last().push('.') =~= name);
        assert(name.drop_last() =~= name.take(name.len() - 1));
    } else {
        assert(name =~= name.take(name.len() as int));
    }
}

/// The first `A` answer is an `A` answer with none before it, and there is
/// none exactly when no answer at all is an `A` answer.
pub proof fn law_first_a(answers: Seq<DnsAnswer>, i: int)
    requires
        0 <= i <= answers.len(),
    ensures
        first_a_from(answers, i) matches Some(k) ==> (i <= k < answers.len()
            && answers[k].type_@ == "A"@
            && forall|j: int| i <= j < k ==> (#[trigger] answers[j]).type_@ != "A"@),
        first_a_from(answers, i) is None ==> forall|j: int| i <= j < answers.len()
            ==> (#[trigger] answers[j]).type_@ != "A"@,
    decreases answers.len() - i,
{
    if i < answers.len() && answers[i].type_@ != "A"@ {
        law_first_a(answers, i + 1);
    }
}

/// The answers of a line, when it has any.
pub open spec fn answers_of(dns: DnsLine) -> Option<Seq<DnsAnswer>> {
    match dns.data {
        Some(d) => match d.answers {
            Some(a) => Some(a@),
            None => None,
        },
        None => None,
    }
}

/// A line yields a target exactly when it is a `NOERROR` response with an
/// `A` answer; the target is then the name and data of the first such
/// answer, with at most the name's root dot removed.
pub proof fn law_a_record(dns: DnsLine)
    ensures
        a_record_of(dns) is Some <==> {
            &&& dns.status@ == "NOERROR"@
            &&& answers_of(dns) is Some
            &&& exists|j: int| 0 <= j < answers_of(dns).unwrap().len()
                && (#[trigger] answers_of(dns).unwrap()[j]).type_@ == "A"@
        },
        a_record_of(dns) is Some ==> exists|k: int| #![trigger answers_of(dns).unwrap()[k]] {
            let a = answers_of(dns).unwrap();
            let (host, addr) = a_record_of(dns).unwrap();
            &&& 0 <= k < a.len()
            &&& a[k].type_@ == "A"@
            &&& forall|j: int| 0 <= j < k ==> (#[trigger] answers_of(dns).unwrap()[j]).type_@ != "A"@
            &&& addr == a[k].data@
            &&& (host == a[k].name@ || host.push('.') == a[k].name@)
        },
{
    if let Some(d) = dns.data {
        if let Some(a) = d.answers {
            law_first_a(a@, 0);
            assert(answers_of(dns) == Some(a@));
            if let Some(k) = first_a_from(a@, 0) {
                law_strip_root_dot(a@[k].name@);
                assert(a@[k].type_@ == "A"@);
                assert(answers_of(dns).unwrap()[k] == a@[k]);
            }
        }
    }
}

} // verus!
