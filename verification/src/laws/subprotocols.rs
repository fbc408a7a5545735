//! How client and server agree on a subprotocol.

use crate::errors::{http_fault, Error, HttpErrorView, ProtocolError, ProtocolErrorView};
use crate::handshake::laws::{lemma_comma_is, lemma_offers_append};
use crate::handshake::subprotocols::{
    distinct, first_of, listed, offers, selected, texts_of, trim_end, trim_start, trimmed,
    SubprotocolRegistry,
};
use crate::http_types::{ascii_text, field_value, fields, lemma_with_field, values_of, visible};
use crate::laws::client::selection;
use http::HeaderMap;
use vstd::prelude::*;
use vstd::utf8::encode_utf8;

verus! {

/// The subprotocols that a client offers in one value of a field.
pub open spec fn offered_in(value: Seq<u8>) -> Seq<Seq<char>> {
    offers(ascii_text(value))
}

/// Whether a value is text and offers nothing that is registered.
pub open spec fn offers_nothing(value: Seq<u8>, registered: Seq<Seq<char>>) -> bool {
    visible(value) && forall|i: int|
        0 <= i < offered_in(value).len() ==> !registered.contains(#[trigger] offered_in(value)[i])
}

/// Whether a name is the first of the offers that is registered.
pub open spec fn is_first(
    offered: Seq<Seq<char>>,
    registered: Seq<Seq<char>>,
    name: Seq<char>,
) -> bool {
    exists|i: int|
        {
            &&& 0 <= i < offered.len()
            &&& #[trigger] offered[i] == name
            &&& registered.contains(name)
            &&& forall|j: int| 0 <= j < i ==> !registered.contains(#[trigger] offered[j])
        }
}

/// What the first of the offers that is registered is.
proof fn lemma_first(offered: Seq<Seq<char>>, registered: Seq<Seq<char>>)
    ensures
        match first_of(offered, registered) {
            Some(name) => is_first(offered, registered, name),
            None => forall|i: int|
                0 <= i < offered.len() ==> !registered.contains(#[trigger] offered[i]),
        },
    decreases offered.len(),
{
    if offered.len() > 0 && !registered.contains(offered[0]) {
        let others = offered.skip(1);
        lemma_first(others, registered);
        match first_of(offered, registered) {
            Some(name) => {
                let i = choose|i: int|
                    {
                        &&& 0 <= i < others.len()
                        &&& #[trigger] others[i] == name
                        &&& registered.contains(name)
                        &&& forall|j: int| 0 <= j < i ==> !registered.contains(#[trigger] others[j])
                    };
                assert(offered[i + 1] == name);
                assert forall|j: int| 0 <= j < i + 1 implies !registered.contains(
                    #[trigger] offered[j],
                ) by {
                    if j > 0 {
                        assert(others[j - 1] == offered[j]);
                    }
                }
            },
            None => {
                assert forall|i: int| 0 <= i < offered.len() implies !registered.contains(
                    #[trigger] offered[i],
                ) by {
                    if i > 0 {
                        assert(others[i - 1] == offered[i]);
                    }
                }
            },
        }
    } else if offered.len() > 0 {
        assert(offered[0] == first_of(offered, registered)->0);
    }
}

/// Whether a negotiation of the values of a field came to what it should: the values are looked
/// through in order. The first offer that is registered is selected. A value that is not text is an
/// error, unless an offer was selected before it.
pub open spec fn negotiates(
    values: Seq<Seq<u8>>,
    registered: Seq<Seq<char>>,
    result: Result<Option<Seq<char>>, ProtocolErrorView>,
) -> bool {
    match result {
        Ok(Some(name)) => exists|k: int|
            {
                &&& 0 <= k < values.len()
                &&& visible(#[trigger] values[k])
                &&& is_first(offered_in(values[k]), registered, name)
                &&& forall|j: int| 0 <= j < k ==> offers_nothing(#[trigger] values[j], registered)
            },
        Ok(None) => forall|j: int|
            0 <= j < values.len() ==> offers_nothing(#[trigger] values[j], registered),
        Err(e) => e is Encoding && exists|k: int|
            {
                &&& 0 <= k < values.len()
                &&& !visible(#[trigger] values[k])
                &&& forall|j: int| 0 <= j < k ==> offers_nothing(#[trigger] values[j], registered)
            },
    }
}

/// What a negotiation comes to.
proof fn lemma_negotiates(values: Seq<Seq<u8>>, registered: Seq<Seq<char>>)
    ensures
        negotiates(values, registered, selected(values, registered)),
    decreases values.len(),
{
    if values.len() > 0 {
        if visible(values[0]) {
            lemma_first(offered_in(values[0]), registered);
            if first_of(offered_in(values[0]), registered) is None {
                let others = values.skip(1);
                lemma_negotiates(others, registered);
                assert(offers_nothing(values[0], registered));
                match selected(others, registered) {
                    Ok(Some(name)) => {
                        let k = choose|k: int|
                            {
                                &&& 0 <= k < others.len()
                                &&& visible(#[trigger] others[k])
                                &&& is_first(offered_in(others[k]), registered, name)
                                &&& forall|j: int|
                                    0 <= j < k ==> offers_nothing(#[trigger] others[j], registered)
                            };
                        assert(values[k + 1] == others[k]);
                        assert forall|j: int| 0 <= j < k + 1 implies offers_nothing(
                            #[trigger] values[j],
                            registered,
                        ) by {
                            if j > 0 {
                                assert(others[j - 1] == values[j]);
                            }
                        }
                    },
                    Ok(None) => {
                        assert forall|j: int| 0 <= j < values.len() implies offers_nothing(
                            #[trigger] values[j],
                            registered,
                        ) by {
                            if j > 0 {
                                assert(others[j - 1] == values[j]);
                            }
                        }
                    },
                    Err(_) => {
                        let k = choose|k: int|
                            {
                                &&& 0 <= k < others.len()
                                &&& !visible(#[trigger] others[k])
                                &&& forall|j: int|
                                    0 <= j < k ==> offers_nothing(#[trigger] others[j], registered)
                            };
                        assert(values[k + 1] == others[k]);
                        assert forall|j: int| 0 <= j < k + 1 implies offers_nothing(
                            #[trigger] values[j],
                            registered,
                        ) by {
                            if j > 0 {
                                assert(others[j - 1] == values[j]);
                            }
                        }
                    },
                }
            } else {
                assert(visible(values[0]));
            }
        } else {
            assert(!visible(values[0]));
        }
    }
}

/// What a negotiation says.
pub open spec fn said(result: Result<Option<String>, ProtocolError>) -> Result<
    Option<Seq<char>>,
    ProtocolErrorView,
> {
    match result {
        Ok(Some(name)) => Ok(Some(name@)),
        Ok(None) => Ok(None),
        Err(e) => Err(e@),
    }
}

/// A server selects the first subprotocol that the client offers and that it has registered.
pub proof fn law_subprotocol_selected(
    registry: &SubprotocolRegistry,
    headers: &HeaderMap,
    result: Result<Option<String>, ProtocolError>,
)
    requires
        call_ensures(SubprotocolRegistry::negotiate_client, (registry, headers), result),
    ensures
        negotiates(
            values_of(fields(*headers), "sec-websocket-protocol"@),
            registry.registered(),
            said(result),
        ),
{
    lemma_negotiates(
        values_of(fields(*headers), "sec-websocket-protocol"@),
        registry.registered(),
    );
}

/// A client accepts a subprotocol that it has offered, and at most one.
pub proof fn law_subprotocol_accepted(
    registry: &SubprotocolRegistry,
    headers: &HeaderMap,
    result: Result<Option<String>, ProtocolError>,
)
    requires
        call_ensures(
            SubprotocolRegistry::validate_accepted_subprotocol,
            (registry, headers),
            result,
        ),
    ensures
        said(result) == selection(
            values_of(fields(*headers), "sec-websocket-protocol"@),
            registry.registered(),
        ),
{
}

/// Where a name occurs first.
pub open spec fn occurs_first(texts: Seq<Seq<char>>, name: Seq<char>, i: int) -> bool {
    0 <= i < texts.len() && texts[i] == name && forall|j: int|
        0 <= j < i ==> #[trigger] texts[j] != name
}

/// Whether names are texts without repetition, in the order in which they occur first.
pub open spec fn without_repetition(texts: Seq<Seq<char>>, names: Seq<Seq<char>>) -> bool {
    &&& names.no_duplicates()
    &&& forall|name: Seq<char>| #[trigger] names.contains(name) <==> texts.contains(name)
    &&& forall|a: int, b: int, i: int, j: int|
        #![trigger occurs_first(texts, names[a], i), occurs_first(texts, names[b], j)]
        0 <= a < b < names.len() && occurs_first(texts, names[a], i) && occurs_first(
            texts,
            names[b],
            j,
        ) ==> i < j
}

/// Texts without repetition.
proof fn lemma_without_repetition(texts: Seq<Seq<char>>)
    ensures
        without_repetition(texts, distinct(texts)),
    decreases texts.len(),
{
    let names = distinct(texts);
    if texts.len() > 0 {
        let fewer = texts.drop_last();
        let before = distinct(fewer);
        let last = texts.last();
        lemma_without_repetition(fewer);
        assert forall|name: Seq<char>| #[trigger] names.contains(name) <==> texts.contains(name) by {
            if names.contains(name) {
                let i = choose|i: int| 0 <= i < names.len() && names[i] == name;
                if i < before.len() {
                    assert(before[i] == name);
                    assert(before.contains(name));
                    let k = choose|k: int| 0 <= k < fewer.len() && fewer[k] == name;
                    assert(texts[k] == name);
                } else {
                    assert(texts[texts.len() - 1] == name);
                }
            }
            if texts.contains(name) {
                let i = choose|i: int| 0 <= i < texts.len() && texts[i] == name;
                if i < fewer.len() {
                    assert(fewer[i] == name);
                    assert(fewer.contains(name));
                    assert(before.contains(name));
                    let k = choose|k: int| 0 <= k < before.len() && before[k] == name;
                    assert(names[k] == name);
                } else if before.contains(last) {
                    let k = choose|k: int| 0 <= k < before.len() && before[k] == last;
                    assert(names[k] == name);
                } else {
                    assert(names[names.len() - 1] == name);
                }
            }
        }
        assert forall|a: int, b: int, i: int, j: int|
            #![trigger occurs_first(texts, names[a], i), occurs_first(texts, names[b], j)]
            0 <= a < b < names.len() && occurs_first(texts, names[a], i) && occurs_first(
                texts,
                names[b],
                j,
            ) implies i < j by {
            assert(names[a] == before[a]);
            assert(before.contains(before[a]));
            assert(fewer.contains(before[a]));
            let k = choose|k: int| 0 <= k < fewer.len() && fewer[k] == before[a];
            assert(texts[k] == names[a]);
            assert(i <= k);
            assert(occurs_first(fewer, before[a], i)) by {
                assert forall|m: int| 0 <= m < i implies #[trigger] fewer[m] != before[a] by {
                    assert(texts[m] == fewer[m]);
                }
            }
            if b < before.len() {
                assert(names[b] == before[b]);
                assert(before.contains(before[b]));
                assert(fewer.contains(before[b]));
                let l = choose|l: int| 0 <= l < fewer.len() && fewer[l] == before[b];
                assert(texts[l] == names[b]);
                assert(j <= l);
                assert(occurs_first(fewer, before[b], j)) by {
                    assert forall|m: int| 0 <= m < j implies #[trigger] fewer[m] != before[b] by {
                        assert(texts[m] == fewer[m]);
                    }
                }
            } else {
                if j < fewer.len() {
                    assert(fewer[j] == last);
                    assert(fewer.contains(last));
                }
            }
        }
    }
}

/// A registry has the subprotocols that it is given, each once and in the order of their priority,
/// and lists them in that order. Names that cannot be listed in the value of a field are rejected.
pub proof fn law_registry(
    protocols: Vec<String>,
    result: Result<SubprotocolRegistry, Error>,
)
    requires
        call_ensures(SubprotocolRegistry::new, (protocols,), result),
    ensures
        exists|names: Seq<Seq<char>>| #[trigger]
            without_repetition(texts_of(protocols@), names) && if field_value(
                encode_utf8(listed(names)),
            ) {
                result matches Ok(registry) && registry.registered() == names && registry.listing()
                    == Some(encode_utf8(listed(names)))
            } else {
                result matches Err(e) && e@ == http_fault(
                    HttpErrorView::MalformattedHeader(listed(names)),
                )
            },
{
    lemma_without_repetition(texts_of(protocols@));
}

/// The listing of a registry is added to a request as its subprotocols, and nothing else changes. A
/// registry without one changes nothing.
pub proof fn law_registry_applied(registry: &SubprotocolRegistry, target: &mut HeaderMap, done: ())
    requires
        call_ensures(SubprotocolRegistry::apply_to, (registry, target), done),
    ensures
        match registry.listing() {
            Some(value) => {
                &&& values_of(fields(*final(target)), "sec-websocket-protocol"@) == seq![value]
                &&& forall|name: Seq<char>|
                    name != "sec-websocket-protocol"@ ==> #[trigger] values_of(
                        fields(*final(target)),
                        name,
                    ) == values_of(fields(*old(target)), name)
            },
            None => fields(*final(target)) == fields(*old(target)),
        },
{
    if let Some(value) = registry.listing() {
        let before = fields(*old(target));
        lemma_with_field(
            before,
            "sec-websocket-protocol"@,
            seq![value],
            "sec-websocket-protocol"@,
        );
        assert forall|name: Seq<char>| name != "sec-websocket-protocol"@ implies #[trigger] values_of(
            fields(*final(target)),
            name,
        ) == values_of(before, name) by {
            lemma_with_field(before, "sec-websocket-protocol"@, seq![value], name);
        }
    }
}

/// A registry that is made without subprotocols has none and lists none, and a copy of a registry
/// has the subprotocols and the listing of the original.
pub proof fn law_registry_copied(
    empty: SubprotocolRegistry,
    registry: &SubprotocolRegistry,
    copy: SubprotocolRegistry,
)
    requires
        call_ensures(<SubprotocolRegistry as Default>::default, (), empty),
        call_ensures(<SubprotocolRegistry as Clone>::clone, (registry,), copy),
    ensures
        empty.registered().len() == 0,
        empty.listing() is None,
        copy.registered() == registry.registered(),
        copy.listing() == registry.listing(),
{
}

/// Names are listed with a comma and a space between them.
pub proof fn law_listed(names: Seq<Seq<char>>, name: Seq<char>)
    ensures
        listed(seq![name]) == name,
        names.len() > 0 ==> listed(names.push(name)) == listed(names) + ", "@ + name,
{
    assert(names.push(name).drop_last() =~= names);
}

/// Whether text holds nothing but spaces and tabs.
pub open spec fn all_blank(text: Seq<char>) -> bool {
    forall|i: int| 0 <= i < text.len() ==> #[trigger] text[i] == ' ' || text[i] == '\t'
}

/// The spaces and tabs on both sides of an item are no part of it.
pub proof fn law_item_trimmed(front: Seq<char>, item: Seq<char>, back: Seq<char>)
    requires
        all_blank(front),
        all_blank(back),
        item.len() > 0,
        item[0] != ' ' && item[0] != '\t',
        item.last() != ' ' && item.last() != '\t',
    ensures
        trimmed(front + item + back) == item,
{
    lemma_trim_start(front, item + back);
    assert(front + item + back =~= front + (item + back));
    lemma_trim_end(item, back);
}

/// The blanks in front are trimmed.
proof fn lemma_trim_start(front: Seq<char>, text: Seq<char>)
    requires
        all_blank(front),
        text.len() > 0,
        text[0] != ' ' && text[0] != '\t',
    ensures
        trim_start(front + text) == text,
    decreases front.len(),
{
    let whole = front + text;
    if front.len() > 0 {
        assert(whole[0] == front[0]);
        assert(whole.skip(1) =~= front.skip(1) + text);
        assert forall|i: int| 0 <= i < front.skip(1).len() implies #[trigger] front.skip(1)[i] == ' '
            || front.skip(1)[i] == '\t' by {
            assert(front[i + 1] == front.skip(1)[i]);
        }
        lemma_trim_start(front.skip(1), text);
    } else {
        assert(whole =~= text);
    }
}

/// The blanks behind are trimmed.
proof fn lemma_trim_end(text: Seq<char>, back: Seq<char>)
    requires
        all_blank(back),
        text.len() > 0,
        text.last() != ' ' && text.last() != '\t',
    ensures
        trim_end(text + back) == text,
    decreases back.len(),
{
    let whole = text + back;
    if back.len() > 0 {
        assert(whole.last() == back.last());
        assert(back[back.len() - 1] == back.last());
        assert(whole.drop_last() =~= text + back.drop_last());
        lemma_trim_end(text, back.drop_last());
    } else {
        assert(whole =~= text);
    }
}

/// The items of a list stand between its commas, without the spaces and tabs around them.
pub proof fn law_items(list: Seq<char>, item: Seq<char>)
    requires
        forall|i: int| 0 <= i < item.len() ==> #[trigger] item[i] != ',',
    ensures
        offers(item) == seq![trimmed(item)],
        offers(list + seq![','] + item) == offers(list).push(trimmed(item)),
{
    lemma_comma_is(item, item.len() as int);
    lemma_offers_append(list, item);
}

} // verus!
