//! Full zone transfers.
//!
//! A zone transfer downloads all records of a zone over a connection of its own, so it
//! bypasses the workers.

use hickory_client::proto::rr::Name;
use hickory_client::proto::ProtoError;
use hickory_client::ClientError;

use vstd::prelude::*;

use crate::address::Endpoint;
use crate::client::ResolverInput;
use crate::error::BlastDNSError;
use crate::names::{qualified, relaxed_name, zone_name};
use crate::utils::{is_unread, parse_resolver};

verus! {

/// Result of a zone transfer.
#[derive(Debug)]
pub struct ZoneTransferResult<R> {
    /// The zone as it was given.
    pub zone: String,
    /// The nameserver that was asked.
    pub nameserver: Endpoint,
    /// All records that the transfer returned.
    pub records: Vec<R>,
}

/// What to ask of whom for a zone transfer.
pub struct ZoneQuery {
    /// The zone as it was given.
    pub zone: String,
    /// The nameserver to ask.
    pub nameserver: Endpoint,
    /// The name of the zone.
    pub name: Name,
}

impl ZoneQuery {
    /// What to ask of whom to transfer `zone` from `nameserver`.
    pub fn new(nameserver: &ResolverInput, zone: &str) -> (query: Result<ZoneQuery, BlastDNSError>)
        ensures
            match nameserver.read() {
                None => {
                    &&& query matches Err(error)
                    &&& is_unread(error, nameserver.text@, nameserver.direct)
                },
                Some(endpoint) => match relaxed_name(qualified(zone@)) {
                    Err(cause) => {
                        &&& query matches Err(BlastDNSError::InvalidHostname { name, source })
                        &&& name@ == zone@
                        &&& source == cause
                    },
                    Ok(named) => {
                        &&& query matches Ok(query)
                        &&& query.zone@ == zone@
                        &&& query.nameserver == endpoint
                        &&& query.name == named
                    },
                },
            },
    {
        let endpoint: Endpoint = match parse_resolver(
            nameserver.text.as_str(),
            &nameserver.direct,
        ) {
            Ok(endpoint) => endpoint,
            Err(error) => {
                return Err(error);
            },
        };
        match zone_name(zone) {
            Ok(name) => Ok(ZoneQuery { zone: zone.to_owned(), nameserver: endpoint, name }),
            Err(error) => Err(error),
        }
    }
}

/// The records of `replies`, one reply after the other.
pub open spec fn all_records<R>(replies: Seq<Result<Vec<R>, ClientError>>) -> Seq<R>
    decreases replies.len(),
{
    if replies.len() == 0 {
        seq![]
    } else {
        all_records(replies.drop_last()) + replies.last()->Ok_0@
    }
}

/// Whether the reply at `i` is the first that failed.
pub open spec fn is_first_failure<R>(replies: Seq<Result<Vec<R>, ClientError>>, i: int) -> bool {
    &&& 0 <= i < replies.len()
    &&& replies[i] is Err
    &&& forall|j: int| 0 <= j < i ==> replies[j] is Ok
}

/// What a zone transfer comes to. `connected` is what came of connecting to the
/// nameserver, and `replies` what it then sent, up to the first failure.
pub fn zone_transfer<R>(
    query: ZoneQuery,
    connected: Result<(), ProtoError>,
    replies: Vec<Result<Vec<R>, ClientError>>,
) -> (transfer: Result<ZoneTransferResult<R>, BlastDNSError>)
    ensures
        match connected {
            Err(source) => transfer == Err::<ZoneTransferResult<R>, BlastDNSError>(
                BlastDNSError::ResolverSetupFailed { resolver: query.nameserver, source },
            ),
            Ok(_) => if forall|i: int| 0 <= i < replies@.len() ==> replies@[i] is Ok {
                &&& transfer matches Ok(result)
                &&& result.zone == query.zone
                &&& result.nameserver == query.nameserver
                &&& result.records@ == all_records(replies@)
            } else {
                exists|i: int|
                    {
                        &&& #[trigger] is_first_failure(replies@, i)
                        &&& transfer == Err::<ZoneTransferResult<R>, BlastDNSError>(
                            BlastDNSError::ResolverRequestFailed {
                                resolver: query.nameserver,
                                source: replies@[i]->Err_0,
                            },
                        )
                    }
            },
        },
{
    match connected {
        Ok(_) => {},
        Err(source) => {
            return Err(BlastDNSError::ResolverSetupFailed { resolver: query.nameserver, source });
        },
    }
    let ghost sent = replies@;
    let mut records: Vec<R> = Vec::new();
    for reply in it: replies
        invariant
            connected is Ok,
            sent == replies@,
            it.seq() == sent,
            records@ == all_records(sent.take(it.index() as int)),
            forall|j: int| 0 <= j < it.index() ==> sent[j] is Ok,
    {
        proof {
            assert(sent.take(it.index() as int + 1).drop_last() =~= sent.take(it.index() as int));
        }
        match reply {
            Ok(answers) => {
                let mut answers: Vec<R> = answers;
                records.append(&mut answers);
            },
            Err(source) => {
                assert(is_first_failure(sent, it.index() as int));
                return Err(
                    BlastDNSError::ResolverRequestFailed { resolver: query.nameserver, source },
                );
            },
        }
    }
    assert(sent.take(sent.len() as int) =~= sent);
    Ok(ZoneTransferResult { zone: query.zone, nameserver: query.nameserver, records })
}

/// The records in `replies`, counted reply by reply.
pub open spec fn record_count<R>(replies: Seq<Result<Vec<R>, ClientError>>) -> nat
    decreases replies.len(),
{
    if replies.len() == 0 {
        0
    } else {
        replies[0]->Ok_0@.len() + record_count(replies.drop_first())
    }
}

/// A transfer may arrive in any portions: the records of replies that come in two parts
/// are those of the first part, then those of the second. A single reply comes back as
/// it is, and no reply holds no record.
pub proof fn law_portions_do_not_count<R>(
    first: Seq<Result<Vec<R>, ClientError>>,
    second: Seq<Result<Vec<R>, ClientError>>,
    answers: Vec<R>,
)
    ensures
        all_records(first + second) == all_records(first) + all_records(second),
        all_records(seq![Ok::<Vec<R>, ClientError>(answers)]) == answers@,
        all_records(Seq::<Result<Vec<R>, ClientError>>::empty()) == Seq::<R>::empty(),
    decreases second.len(),
{
    let single = seq![Ok::<Vec<R>, ClientError>(answers)];
    assert(single.drop_last() =~= Seq::<Result<Vec<R>, ClientError>>::empty());
    assert(all_records(single.drop_last()) =~= Seq::<R>::empty());
    assert(all_records(single) =~= answers@);
    if second.len() > 0 {
        law_portions_do_not_count(first, second.drop_last(), answers);
        assert((first + second).drop_last() =~= first + second.drop_last());
        assert(all_records(first + second) =~= all_records(first) + all_records(second));
    } else {
        assert(first + second =~= first);
        assert(all_records(first + second) =~= all_records(first) + all_records(second));
    }
}

/// A transfer loses no record, invents none and keeps their order: there are as many
/// records as the replies hold together, and the record at `j` of the reply at `i` comes
/// after those of the replies before it and the `j` before it in its own.
pub proof fn law_every_record_is_transferred<R>(
    replies: Seq<Result<Vec<R>, ClientError>>,
    i: int,
    j: int,
)
    requires
        0 <= i < replies.len(),
        0 <= j < replies[i]->Ok_0@.len(),
    ensures
        all_records(replies).len() == record_count(replies),
        record_count(replies.take(i)) + j < all_records(replies).len(),
        all_records(replies)[record_count(replies.take(i)) + j] == replies[i]->Ok_0@[j],
{
    let front = replies.take(i);
    let own = replies.subrange(i, i + 1);
    let back = replies.skip(i + 1);
    lemma_record_count(replies);
    lemma_record_count(front);
    assert(replies =~= front + own + back);
    let spare = replies[i]->Ok_0;
    law_portions_do_not_count(front + own, back, spare);
    law_portions_do_not_count(front, own, spare);
    assert(own.drop_last() =~= Seq::<Result<Vec<R>, ClientError>>::empty());
    assert(all_records(own) =~= replies[i]->Ok_0@);
}

/// There are as many records as the replies hold together.
proof fn lemma_record_count<R>(replies: Seq<Result<Vec<R>, ClientError>>)
    ensures
        all_records(replies).len() == record_count(replies),
    decreases replies.len(),
{
    if replies.len() > 0 {
        let first = replies.take(1);
        let rest = replies.drop_first();
        lemma_record_count(rest);
        assert(replies =~= first + rest);
        law_portions_do_not_count(first, rest, replies[0]->Ok_0);
        assert(first.drop_last() =~= Seq::<Result<Vec<R>, ClientError>>::empty());
        assert(all_records(first) =~= replies[0]->Ok_0@);
    }
}

/// A transfer fails with the failure that came first: of several, no other one is
/// reported, and replies without a failure have none.
pub proof fn law_the_first_failure_is_reported<R>(
    replies: Seq<Result<Vec<R>, ClientError>>,
    i: int,
    j: int,
)
    requires
        is_first_failure(replies, i),
        0 <= j < replies.len(),
        replies[j] is Err,
    ensures
        replies[i] is Err,
        i <= j,
        is_first_failure(replies, j) ==> i == j,
{
}

} // verus!
