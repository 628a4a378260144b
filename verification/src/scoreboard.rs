//! The score board: a sequence of scores, read through a pipeline and shown
//! as a numbered list.

use vstd::prelude::*;
use vstd::string::*;

use crate::builder::Builder;
use crate::collection::run;
use crate::collection::Collection;
use crate::identity::shown_name;
use crate::score::Score;
use crate::score::ScoreView;
use crate::text::decimal;
use crate::text::decimal_string;

verus! {

/// One line of the list: the place, the sentence of the score, a line end.
pub open spec fn line(place: nat, score: ScoreView, who: Seq<char>, time: Seq<char>) -> Seq<
    char,
> {
    decimal(place) + ". "@ + score.sentence(who, time) + "\n"@
}

/// The list: one line for each score, numbered from 1, with `names[i]` for
/// the player of the `i`-th score and `times[i]` for its time.
pub open spec fn lines(scores: Seq<ScoreView>, names: Seq<Seq<char>>, times: Seq<Seq<char>>) -> Seq<
    char,
>
    decreases scores.len(),
{
    if scores.len() == 0 {
        Seq::<char>::empty()
    } else {
        lines(scores.drop_last(), names.drop_last(), times.drop_last()) + line(
            scores.len(),
            scores.last(),
            names.last(),
            times.last(),
        )
    }
}

/// The texts of strings.
pub open spec fn texts(strings: Seq<String>) -> Seq<Seq<char>> {
    strings.map_values(|s: String| s@)
}

/// The players' names as the scores hold them.
pub open spec fn own_names(scores: Seq<ScoreView>) -> Seq<Seq<char>> {
    scores.map_values(|v: ScoreView| v.name)
}

/// The text of what a lookup found.
pub open spec fn found_text(found: Option<String>) -> Option<Seq<char>> {
    match found {
        Some(name) => Some(name@),
        None => None,
    }
}

/// The names to show: for each score what the lookup found, or, where it
/// found nothing, the name that the score holds.
pub open spec fn real_names(scores: Seq<ScoreView>, found: Seq<Option<String>>) -> Seq<Seq<char>> {
    Seq::new(scores.len(), |i: int| shown_name(scores[i].name, found_text(found[i])))
}

/// Whether `times` holds, for each score, a text that `format_time` can
/// return for the time of that score.
pub open spec fn timed<F: Fn(u64) -> String>(
    format_time: F,
    scores: Seq<ScoreView>,
    times: Seq<String>,
) -> bool {
    &&& times.len() == scores.len()
    &&& forall|i: int|
        0 <= i < scores.len() ==> call_ensures(format_time, (scores[i].time_ns,), #[trigger] times[i])
}

/// Whether `found` holds, for each score, an answer that `resolve` can give
/// when asked for the player of that score, `asked` holding the questions.
pub open spec fn resolved<R: Fn(&String) -> Option<String>>(
    resolve: R,
    scores: Seq<ScoreView>,
    asked: Seq<String>,
    found: Seq<Option<String>>,
) -> bool {
    &&& asked.len() == scores.len()
    &&& found.len() == scores.len()
    &&& forall|i: int|
        0 <= i < scores.len() ==> (#[trigger] asked[i])@ == scores[i].name && call_ensures(
            resolve,
            (&asked[i],),
            found[i],
        )
}

/// Renders one line of the list.
pub fn render_line(place: usize, score: &Score, who: &str, time: &str) -> (r: String)
    ensures
        r@ == line(place as nat, score@, who@, time@),
{
    let mut r = decimal_string(place);
    r.append(". ");
    r.append(score.render_as(who, time).as_str());
    r.append("\n");
    r
}

/// A sequence of scores.
#[derive(Debug)]
pub struct ScoreBoard {
    scores: Vec<Score>,
}

impl View for ScoreBoard {
    type V = Seq<ScoreView>;

    closed spec fn view(&self) -> Seq<ScoreView> {
        self.scores.deep_view()
    }
}

impl ScoreBoard {
    /// What the board shows through `filters`: what the pipeline makes of its
    /// scores, or, without a pipeline, its scores.
    pub open spec fn shown(&self, filters: Option<&Collection>) -> Seq<ScoreView> {
        match filters {
            Some(pipeline) => run(pipeline@, self@),
            None => self@,
        }
    }

    /// The board of `scores`, in their order.
    pub fn new(scores: Vec<Score>) -> (r: Self)
        ensures
            r@ == scores.deep_view(),
    {
        ScoreBoard { scores }
    }

    /// The board of what the staged rules of `filters` leave of this one.
    pub fn filter(self, filters: Builder) -> (r: Self)
        ensures
            r@ == run(filters@, self@),
    {
        let filters = filters.build();
        let scores = filters.apply(self.scores.as_slice());
        ScoreBoard { scores }
    }

    /// The scores that the board shows through `filters`.
    pub fn get(&self, filters: Option<&Collection>) -> (r: Vec<Score>)
        ensures
            r.deep_view() == self.shown(filters),
    {
        match filters {
            Some(filters) => filters.apply(self.scores.as_slice()),
            None => {
                let r = self.scores.clone();
                assert(r.deep_view() =~= self.scores.deep_view());
                r
            },
        }
    }

    /// The numbered list of the scores that the board shows through
    /// `filters`. `format_time` renders the time of each score.
    pub fn display<F: Fn(u64) -> String>(&self, filters: Option<&Collection>, format_time: F) -> (r:
        String)
        requires
            forall|t: u64| call_requires(format_time, (t,)),
        ensures
            exists|times: Seq<String>|
                #[trigger] timed(format_time, self.shown(filters), times) && r@ == lines(
                    self.shown(filters),
                    own_names(self.shown(filters)),
                    texts(times),
                ),
    {
        let scores = self.get(filters);
        let ghost shown = scores.deep_view();
        let ghost names = own_names(shown);
        let ghost mut times: Seq<String> = Seq::empty();
        let mut out = String::new();
        let mut i: usize = 0;
        while i < scores.len()
            invariant
                i <= scores.len(),
                shown == scores.deep_view(),
                names == own_names(shown),
                forall|t: u64| call_requires(format_time, (t,)),
                timed(format_time, shown.take(i as int), times),
                out@ == lines(shown.take(i as int), names.take(i as int), texts(times)),
            decreases scores.len() - i,
        {
            let time = format_time(scores[i].time_ns);
            let row = render_line(i + 1, &scores[i], scores[i].name.as_str(), time.as_str());
            out.append(row.as_str());
            proof {
                let next = times.push(time);
                assert(shown.take(i + 1).drop_last() =~= shown.take(i as int));
                assert(names.take(i + 1).drop_last() =~= names.take(i as int));
                assert(texts(next).drop_last() =~= texts(times));
                assert forall|k: int| 0 <= k < i + 1 implies call_ensures(
                    format_time,
                    (shown.take(i + 1)[k].time_ns,),
                    #[trigger] next[k],
                ) by {
                    if k < i {
                        assert(next[k] == times[k]);
                        assert(shown.take(i as int)[k] == shown.take(i + 1)[k]);
                    }
                }
                times = next;
            }
            i = i + 1;
        }
        proof {
            assert(shown.take(scores.len() as int) =~= shown);
            assert(names.take(scores.len() as int) =~= names);
            assert(timed(format_time, self.shown(filters), times));
        }
        out
    }

    /// The numbered list of the scores that the board shows through
    /// `filters`, each under the real name of its player. `resolve` looks a
    /// player up; where it finds nothing, the line keeps the player's own
    /// name.
    pub fn display_with_real_name<F: Fn(u64) -> String, R: Fn(&String) -> Option<String>>(
        &self,
        filters: Option<&Collection>,
        format_time: F,
        resolve: R,
    ) -> (r: String)
        requires
            forall|t: u64| call_requires(format_time, (t,)),
            forall|account: &String| call_requires(resolve, (account,)),
        ensures
            exists|times: Seq<String>, asked: Seq<String>, found: Seq<Option<String>>|
                #![trigger timed(format_time, self.shown(filters), times), resolved(resolve, self.shown(filters), asked, found)]
                timed(format_time, self.shown(filters), times) && resolved(
                    resolve,
                    self.shown(filters),
                    asked,
                    found,
                ) && r@ == lines(
                    self.shown(filters),
                    real_names(self.shown(filters), found),
                    texts(times),
                ),
    {
        let scores = self.get(filters);
        let ghost shown = scores.deep_view();
        let ghost mut times: Seq<String> = Seq::empty();
        let ghost mut asked: Seq<String> = Seq::empty();
        let ghost mut found: Seq<Option<String>> = Seq::empty();
        let mut out = String::new();
        let mut i: usize = 0;
        assert(real_names(shown.take(0), found) =~= Seq::<Seq<char>>::empty());
        while i < scores.len()
            invariant
                i <= scores.len(),
                shown == scores.deep_view(),
                forall|t: u64| call_requires(format_time, (t,)),
                forall|account: &String| call_requires(resolve, (account,)),
                timed(format_time, shown.take(i as int), times),
                resolved(resolve, shown.take(i as int), asked, found),
                out@ == lines(
                    shown.take(i as int),
                    real_names(shown.take(i as int), found),
                    texts(times),
                ),
            decreases scores.len() - i,
        {
            let time = format_time(scores[i].time_ns);
            let answer = resolve(&scores[i].name);
            let ghost who = shown_name(shown[i as int].name, found_text(answer));
            let row = match &answer {
                Some(name) => render_line(i + 1, &scores[i], name.as_str(), time.as_str()),
                None => render_line(i + 1, &scores[i], scores[i].name.as_str(), time.as_str()),
            };
            assert(row@ == line((i + 1) as nat, shown[i as int], who, time@));
            out.append(row.as_str());
            proof {
                let next_times = times.push(time);
                let next_asked = asked.push(scores[i as int].name);
                let next_found = found.push(answer);
                let now = shown.take(i + 1);
                assert(now.drop_last() =~= shown.take(i as int));
                assert(texts(next_times).drop_last() =~= texts(times));
                assert(real_names(now, next_found).drop_last() =~= real_names(
                    shown.take(i as int),
                    found,
                ));
                assert(real_names(now, next_found).last() == who);
                assert forall|k: int| 0 <= k < i + 1 implies call_ensures(
                    format_time,
                    (now[k].time_ns,),
                    #[trigger] next_times[k],
                ) by {
                    if k < i {
                        assert(next_times[k] == times[k]);
                        assert(shown.take(i as int)[k] == now[k]);
                    }
                }
                assert forall|k: int| 0 <= k < i + 1 implies (#[trigger] next_asked[k])@
                    == now[k].name && call_ensures(resolve, (&next_asked[k],), next_found[k]) by {
                    if k < i {
                        assert(next_asked[k] == asked[k]);
                        assert(next_found[k] == found[k]);
                        assert(shown.take(i as int)[k] == now[k]);
                    }
                }
                times = next_times;
                asked = next_asked;
                found = next_found;
            }
            i = i + 1;
        }
        proof {
            assert(shown.take(scores.len() as int) =~= shown);
            assert(timed(format_time, self.shown(filters), times));
            assert(resolved(resolve, self.shown(filters), asked, found));
        }
        out
    }
}

} // verus!
