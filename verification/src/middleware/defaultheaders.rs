//! A middleware that gives responses the headers they lack.

use vstd::prelude::*;
use vstd::string::StringSliceAdditionalSpecFns;
use crate::error::Error;
use crate::header::{
    canonical_name, checked_header, has_header, is_header_value, HeaderMap, InvalidHeader,
    CONTENT_TYPE,
};
use crate::httprequest::HttpRequest;
use crate::httpresponse::HttpResponse;
use crate::middleware::{Finished, Middleware, Response, Started};
use crate::param::ParamView;

verus! {

/// `headers` with each header of `defaults`, in their order, whose name is
/// not there yet.
pub open spec fn with_defaults(headers: Seq<ParamView>, defaults: Seq<ParamView>) -> Seq<ParamView>
    decreases defaults.len(),
{
    if defaults.len() == 0 {
        headers
    } else {
        let so_far = with_defaults(headers, defaults.drop_last());
        if has_header(so_far, defaults.last().0) {
            so_far
        } else {
            so_far.push(defaults.last())
        }
    }
}

/// The content type that a response gets that says none.
pub open spec fn default_type() -> ParamView {
    ("content-type"@, "application/octet-stream"@)
}

/// The headers of a response after the middleware: each default whose
/// name the response lacks is added; and so is the default content type, if
/// that is asked for and still lacking.
pub open spec fn defaulted(headers: Seq<ParamView>, defaults: Seq<ParamView>, ct: bool) -> Seq<
    ParamView,
> {
    let filled = with_defaults(headers, defaults);
    if ct && !has_header(filled, "content-type"@) {
        filled.push(default_type())
    } else {
        filled
    }
}

/// The defaults leave the headers of the response as they are and only
/// add after them; and every name of a default is there in the end.
pub proof fn lemma_with_defaults(headers: Seq<ParamView>, defaults: Seq<ParamView>)
    ensures
        with_defaults(headers, defaults).len() >= headers.len(),
        with_defaults(headers, defaults).take(headers.len() as int) == headers,
        forall|i: int|
            0 <= i < defaults.len() ==> has_header(
                with_defaults(headers, defaults),
                (#[trigger] defaults[i]).0,
            ),
    decreases defaults.len(),
{
    let all = with_defaults(headers, defaults);
    if defaults.len() == 0 {
        assert(headers.take(headers.len() as int) =~= headers);
    } else {
        let so_far = with_defaults(headers, defaults.drop_last());
        lemma_with_defaults(headers, defaults.drop_last());
        assert(all.take(headers.len() as int) =~= so_far.take(headers.len() as int));
        assert forall|i: int| 0 <= i < defaults.len() implies has_header(
            all,
            (#[trigger] defaults[i]).0,
        ) by {
            if i < defaults.len() - 1 {
                assert(defaults.drop_last()[i] == defaults[i]);
                let w = choose|w: int|
                    0 <= w < so_far.len() && (#[trigger] so_far[w]).0 == defaults[i].0;
                assert(all[w].0 == defaults[i].0);
            } else if has_header(so_far, defaults.last().0) {
            } else {
                assert(all[all.len() - 1].0 == defaults[i].0);
            }
        }
    }
}

/// A middleware that gives responses the headers they lack.
#[derive(Debug)]
pub struct DefaultHeaders {
    pub ct: bool,
    pub headers: HeaderMap,
}

/// Builds a [`DefaultHeaders`].
#[derive(Debug)]
pub struct DefaultHeadersBuilder {
    pub ct: bool,
    pub headers: Option<HeaderMap>,
}

impl DefaultHeaders {
    pub fn build() -> (r: DefaultHeadersBuilder)
        ensures
            !r.ct,
            r.headers matches Some(h) && h@.len() == 0,
    {
        DefaultHeadersBuilder { ct: false, headers: Some(HeaderMap::new()) }
    }

    /// Gives `resp` the headers it lacks.
    pub fn apply(&self, resp: HttpResponse) -> (r: HttpResponse)
        ensures
            r.status == resp.status,
            r.body == resp.body,
            r.headers@ == defaulted(resp.headers@, self.headers@, self.ct),
    {
        let ghost given = resp;
        let mut resp = resp;
        let ghost start = resp.headers@;
        let mut i: usize = 0;
        assert(self.headers@.take(0) =~= Seq::<ParamView>::empty());
        while i < self.headers.entries.len()
            invariant
                i <= self.headers.entries@.len(),
                resp.status == given.status,
                resp.body == given.body,
                start == given.headers@,
                resp.headers@ == with_defaults(start, self.headers@.take(i as int)),
            decreases self.headers.entries@.len() - i,
        {
            let key = self.headers.entries[i].0.as_str();
            let value = self.headers.entries[i].1.as_str();
            proof {
                assert(self.headers@.take(i + 1).drop_last() =~= self.headers@.take(i as int));
                assert(self.headers@.take(i + 1).last() == (key@, value@));
            }
            if !resp.headers.contains_key(key) {
                resp.headers.append(key, value);
            }
            i += 1;
        }
        assert(self.headers@.take(self.headers@.len() as int) =~= self.headers@);
        if self.ct && !resp.headers.contains_key(CONTENT_TYPE) {
            resp.headers.append(CONTENT_TYPE, "application/octet-stream");
        }
        resp
    }
}

impl<S> Middleware<S> for DefaultHeaders {
    type Starting = ();

    type Responding = ();

    type Finishing = ();

    fn start(&self, req: &mut HttpRequest<S>) -> (r: Result<Started<()>, Error>)
        ensures
            r matches Ok(Started::Done),
            *final(req) == *old(req),
    {
        Ok(Started::Done)
    }

    fn response(&self, req: &mut HttpRequest<S>, resp: HttpResponse) -> (r: Result<
        Response<()>,
        Error,
    >)
        ensures
            *final(req) == *old(req),
            r matches Ok(Response::Done(out)) && out.status == resp.status && out.body == resp.body
                && out.headers@ == defaulted(resp.headers@, self.headers@, self.ct),
    {
        Ok(Response::Done(self.apply(resp)))
    }

    fn finish(&self, req: &mut HttpRequest<S>, resp: &HttpResponse) -> (r: Finished<()>)
        ensures
            r is Done,
            *final(req) == *old(req),
    {
        Finished::Done
    }
}

impl DefaultHeadersBuilder {
    /// Adds a default header. A builder that is finished stays as it is,
    /// whatever the name and the value are.
    pub fn header(&mut self, key: &str, value: &str) -> (r: &mut Self)
        requires
            old(self).headers is Some ==> canonical_name(key@) is Some && is_header_value(
                value.spec_bytes(),
            ),
        ensures
            r.ct == old(self).ct,
            match old(self).headers {
                Some(headers) => r.headers matches Some(h) && h@ == headers@.push(
                    (canonical_name(key@)->0, value@),
                ),
                None => r.headers is None,
            },
            *final(self) == *final(r),
    {
        if let Some(headers) = &mut self.headers {
            match checked_header(key, value) {
                Ok((name, value)) => {
                    headers.append(name.as_str(), value.as_str());
                },
                Err(_) => {},
            }
        }
        self
    }

    /// Adds a default header if its name and its value are taken, and says
    /// why not where they are not. A builder that is finished stays as it
    /// is, and nothing is asked of the name and the value then.
    pub fn try_header(&mut self, key: &str, value: &str) -> (r: Result<(), InvalidHeader>)
        ensures
            final(self).ct == old(self).ct,
            match r {
                Ok(_) => match old(self).headers {
                    Some(headers) => {
                        &&& canonical_name(key@) is Some
                        &&& is_header_value(value.spec_bytes())
                        &&& final(self).headers matches Some(h) && h@ == headers@.push(
                            (canonical_name(key@)->0, value@),
                        )
                    },
                    None => final(self).headers is None,
                },
                Err(InvalidHeader::Name) => old(self).headers is Some && canonical_name(key@)
                    is None && *final(self) == *old(self),
                Err(InvalidHeader::Value) => old(self).headers is Some && canonical_name(key@)
                    is Some && !is_header_value(value.spec_bytes()) && *final(self) == *old(self),
            },
    {
        if self.headers.is_some() {
            match checked_header(key, value) {
                Ok(_) => {
                    let _ = self.header(key, value);
                    Ok(())
                },
                Err(err) => Err(err),
            }
        } else {
            let _ = self.header(key, value);
            Ok(())
        }
    }

    /// Asks for the default content type.
    pub fn content_type(&mut self) -> (r: &mut Self)
        ensures
            *r == (DefaultHeadersBuilder { ct: true, ..*old(self) }),
            *final(self) == *final(r),
    {
        self.ct = true;
        self
    }

    /// The middleware. The builder is finished with it.
    pub fn finish(&mut self) -> (r: DefaultHeaders)
        requires
            old(self).headers is Some,
        ensures
            r.ct == old(self).ct,
            Some(r.headers) == old(self).headers,
            final(self).headers is None,
            final(self).ct == old(self).ct,
    {
        let headers = match self.headers.take() {
            Some(headers) => headers,
            None => vstd::pervasive::unreached(),
        };
        DefaultHeaders { ct: self.ct, headers }
    }
}

} // verus!
