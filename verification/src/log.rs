//! Loggers: a severity scale, a filter that drops messages below a level,
//! and a buffer that keeps only the latest messages until flushed.
use vstd::prelude::*;
use std::collections::VecDeque;

verus! {

/// The severity of a message, from the least to the most severe.
#[derive(Debug, Clone, Copy, PartialEq, Eq, PartialOrd, Structural)]
pub enum LogLevel {
    Trace,
    Info,
    Warning,
    Error,
    Fatal,
}

impl LogLevel {
    /// The place of a level on the severity scale.
    pub open spec fn rank(self) -> nat {
        match self {
            LogLevel::Trace => 0,
            LogLevel::Info => 1,
            LogLevel::Warning => 2,
            LogLevel::Error => 3,
            LogLevel::Fatal => 4,
        }
    }

    /// Severity is a strict total order in the order the levels are
    /// declared, `Trace < Info < Warning < Error < Fatal`: two levels that
    /// are each at least as severe as the other are the same level, every
    /// two levels compare, the order is transitive, and each level is more
    /// severe than the one declared before it. So `at_least` holds exactly
    /// when its receiver is declared no earlier than its argument.
    pub proof fn law_severity_order(a: LogLevel, b: LogLevel, c: LogLevel)
        ensures
            a.rank() >= b.rank() && b.rank() >= a.rank() ==> a == b,
            a.rank() >= b.rank() || b.rank() >= a.rank(),
            a.rank() >= b.rank() && b.rank() >= c.rank() ==> a.rank() >= c.rank(),
            LogLevel::Info.rank() > LogLevel::Trace.rank(),
            LogLevel::Warning.rank() > LogLevel::Info.rank(),
            LogLevel::Error.rank() > LogLevel::Warning.rank(),
            LogLevel::Fatal.rank() > LogLevel::Error.rank(),
    {
    }

    /// Whether this level is at least as severe as `other`.
    pub fn at_least(&self, other: &LogLevel) -> (r: bool)
        ensures r == (self.rank() >= other.rank()),
    {
        let a: u8 = match self {
            LogLevel::Trace => 0,
            LogLevel::Info => 1,
            LogLevel::Warning => 2,
            LogLevel::Error => 3,
            LogLevel::Fatal => 4,
        };
        let b: u8 = match other {
            LogLevel::Trace => 0,
            LogLevel::Info => 1,
            LogLevel::Warning => 2,
            LogLevel::Error => 3,
            LogLevel::Fatal => 4,
        };
        a >= b
    }
}

/// Whether every message that `message` can make has the text `t`.
pub open spec fn makes_only<F: Fn() -> String>(message: &F, t: Seq<char>) -> bool {
    forall|m: String| message.ensures((), m) ==> m@ == t
}

/// Something that takes log messages. The message is made only when the
/// logger asks for it.
pub trait Logger {
    /// Whether logging the text `t` at `level` takes this logger to `next`.
    /// A logger that does not describe this promises nothing of it.
    closed spec fn logs_text(&self, level: LogLevel, t: Seq<char>, next: &Self) -> bool {
        true
    }

    /// Logs the message that `message` makes, at `level`.
    fn logln<F: Fn() -> String>(&mut self, level: LogLevel, message: &F)
        requires
            message.requires(()),
        ensures
            forall|t: Seq<char>| makes_only(message, t)
                ==> #[trigger] old(self).logs_text(level, t, &*final(self)),
    ;

    /// Logs the text `message` at `level`.
    fn logln_str(&mut self, level: LogLevel, message: &str)
        ensures
            old(self).logs_text(level, message@, &*final(self)),
    {
        let f = || -> (r: String)
            ensures r@ == message@,
        { message.to_owned() };
        self.logln(level, &f);
        assert(makes_only(&f, message@));
    }
}

/// A logger that first turns a message into data and then logs the data,
/// so that the two steps can be composed.
pub trait DataLogger {
    type LogData;

    /// Whether `data` is what this logger prepares of the text `t` at
    /// `level`. A logger that does not describe this promises nothing of it.
    closed spec fn prepares(&self, level: LogLevel, t: Seq<char>, data: Self::LogData) -> bool {
        true
    }

    /// Whether logging `data` takes this logger to `next`. A logger that
    /// does not describe this promises nothing of it.
    closed spec fn logs_data(&self, data: Self::LogData, next: &Self) -> bool {
        true
    }

    /// Turns the message that `message` makes at `level` into data.
    fn prepare<F: Fn() -> String>(&self, level: LogLevel, message: &F) -> (r: Self::LogData)
        requires
            message.requires(()),
        ensures
            forall|t: Seq<char>| makes_only(message, t) ==> #[trigger] self.prepares(level, t, r),
    ;

    /// Logs prepared data.
    fn logln_data(&mut self, data: Self::LogData)
        ensures
            old(self).logs_data(data, &*final(self)),
    ;
}

impl<T: DataLogger> Logger for T {
    /// Logging a text is preparing data of it and logging the data.
    open spec fn logs_text(&self, level: LogLevel, t: Seq<char>, next: &Self) -> bool {
        exists|d: T::LogData| self.prepares(level, t, d) && #[trigger] self.logs_data(d, next)
    }

    fn logln<F: Fn() -> String>(&mut self, level: LogLevel, message: &F) {
        let data = self.prepare(level, message);
        self.logln_data(data);
        assert forall|t: Seq<char>| makes_only(message, t)
            implies #[trigger] old(self).logs_text(level, t, &*self) by {
            assert(old(self).prepares(level, t, data));
            assert(old(self).logs_data(data, &*self));
        }
    }
}

/// Whether logging `items` one after the other, first to last, takes the
/// logger `from` to `to`.
pub open spec fn logs_each<T: DataLogger>(from: T, items: Seq<T::LogData>, to: T) -> bool
    decreases items.len(),
{
    if items.len() == 0 {
        to == from
    } else {
        exists|mid: T| #[trigger] from.logs_data(items[0], &mid) && logs_each(mid, items.drop_first(), to)
    }
}

/// Logging one more item after a run of items extends the run.
proof fn lemma_logs_each_push<T: DataLogger>(from: T, items: Seq<T::LogData>, to: T, x: T::LogData, next: T)
    requires
        logs_each(from, items, to),
        to.logs_data(x, &next),
    ensures
        logs_each(from, items.push(x), next),
    decreases items.len(),
{
    if items.len() == 0 {
        assert(items.push(x).drop_first() =~= Seq::<T::LogData>::empty());
        assert(logs_each(next, Seq::<T::LogData>::empty(), next));
        assert(from.logs_data(items.push(x)[0], &next));
    } else {
        let mid = choose|mid: T| #[trigger] from.logs_data(items[0], &mid) && logs_each(mid, items.drop_first(), to);
        lemma_logs_each_push(mid, items.drop_first(), to, x, next);
        assert(items.push(x).drop_first() =~= items.drop_first().push(x));
        assert(items.push(x)[0] == items[0]);
        assert(from.logs_data(items.push(x)[0], &mid));
    }
}

/// A logger that passes on the messages of at least a given level to
/// another logger, and drops the others without making them.
pub struct FilterLogs<T: DataLogger> {
    logger: T,
    min_level: LogLevel,
}

impl<T: DataLogger> FilterLogs<T> {
    /// The logger that the messages are passed to.
    pub closed spec fn inner(&self) -> T {
        self.logger
    }

    /// The least level that is passed on.
    pub closed spec fn min_level(&self) -> LogLevel {
        self.min_level
    }

    /// A filter over `logger` that passes on the levels from `min_level` up.
    pub fn new(logger: T, min_level: LogLevel) -> (r: Self)
        ensures
            r.inner() == logger,
            r.min_level() == min_level,
    {
        Self { logger, min_level }
    }
}

impl<T: DataLogger> DataLogger for FilterLogs<T> {
    type LogData = Option<T::LogData>;

    /// Below the minimum level nothing is prepared; from it on, what the
    /// inner logger prepares.
    closed spec fn prepares(&self, level: LogLevel, t: Seq<char>, data: Option<T::LogData>) -> bool {
        if level.rank() >= self.min_level.rank() {
            data matches Some(d) && self.logger.prepares(level, t, d)
        } else {
            data is None
        }
    }

    /// `None` changes nothing; `Some` data is logged by the inner logger.
    closed spec fn logs_data(&self, data: Option<T::LogData>, next: &Self) -> bool {
        match data {
            None => *next == *self,
            Some(d) => next.min_level == self.min_level && self.logger.logs_data(d, &next.logger),
        }
    }

    /// Prepares the message with the inner logger when its level is at
    /// least the minimum, and gives `None` otherwise.
    fn prepare<F: Fn() -> String>(&self, level: LogLevel, message: &F) -> (r: Self::LogData)
        ensures
            r is Some <==> level.rank() >= self.min_level().rank(),
            r matches Some(d) ==> forall|t: Seq<char>| makes_only(message, t)
                ==> #[trigger] self.inner().prepares(level, t, d),
    {
        if level.at_least(&self.min_level) {
            Some(self.logger.prepare(level, message))
        } else {
            None
        }
    }

    /// Logs prepared data with the inner logger; `None` logs nothing.
    fn logln_data(&mut self, data: Self::LogData)
        ensures
            data is None ==> *final(self) == *old(self),
            final(self).min_level() == old(self).min_level(),
            data matches Some(d) ==> old(self).inner().logs_data(d, &final(self).inner()),
    {
        if let Some(data) = data {
            self.logger.logln_data(data);
        }
    }
}

/// A logger that keeps only the latest messages, up to a number, and hands
/// them to another logger when flushed.
pub struct LastNLogs<T: DataLogger> {
    logger: T,
    logs: VecDeque<T::LogData>,
    max_amount: usize,
}

impl<T: DataLogger> LastNLogs<T> {
    /// The logger that the kept messages are handed to.
    pub closed spec fn inner(&self) -> T {
        self.logger
    }

    /// The kept messages, oldest first.
    pub closed spec fn kept(&self) -> Seq<T::LogData> {
        self.logs@
    }

    /// The number of messages that are kept.
    pub closed spec fn max_amount(&self) -> nat {
        self.max_amount as nat
    }

    /// A buffer of at most `max_amount` messages, empty, over `logger`.
    pub fn new_empty(logger: T, max_amount: usize) -> (r: Self)
        requires max_amount > 0,
        ensures
            r.inner() == logger,
            r.kept() == Seq::<T::LogData>::empty(),
            r.max_amount() == max_amount,
    {
        Self { logger, logs: VecDeque::new(), max_amount }
    }

    /// A buffer of `max_amount` messages over `logger` that already holds
    /// `logs`.
    pub fn new_custom(logger: T, max_amount: usize, logs: VecDeque<T::LogData>) -> (r: Self)
        requires max_amount > 0,
        ensures
            r.inner() == logger,
            r.kept() == logs@,
            r.max_amount() == max_amount,
    {
        Self { logger, logs, max_amount }
    }

    /// Hands every kept message, oldest first, to the inner logger and
    /// empties the buffer.
    pub fn flush(&mut self)
        ensures
            final(self).kept() == Seq::<T::LogData>::empty(),
            final(self).max_amount() == old(self).max_amount(),
            logs_each(old(self).inner(), old(self).kept(), final(self).inner()),
    {
        let ghost all = self.logs@;
        let ghost first = self.logger;
        let ghost mut k: int = 0;
        assert(all.take(0) =~= Seq::<T::LogData>::empty());
        assert(all.skip(0) =~= all);
        while self.logs.len() > 0
            invariant
                self.max_amount() == old(self).max_amount(),
                all == old(self).kept(),
                first == old(self).inner(),
                0 <= k <= all.len(),
                self.logs@ == all.skip(k),
                logs_each(first, all.take(k), self.logger),
            decreases self.logs@.len(),
        {
            let ghost before = self.logger;
            match self.logs.pop_front() {
                Some(data) => {
                    self.logger.logln_data(data);
                    proof {
                        assert(all.skip(k)[0] == all[k]);
                        assert(data == all[k]);
                        lemma_logs_each_push(first, all.take(k), before, data, self.logger);
                        assert(all.take(k).push(data) =~= all.take(k + 1));
                        assert(self.logs@ =~= all.skip(k + 1));
                        k = k + 1;
                    }
                },
                None => {},
            }
        }
        assert(all.skip(k).len() == 0);
        assert(all.take(k) =~= all);
    }
}

impl<T: DataLogger> DataLogger for LastNLogs<T> {
    type LogData = T::LogData;

    /// What the inner logger prepares.
    closed spec fn prepares(&self, level: LogLevel, t: Seq<char>, data: T::LogData) -> bool {
        self.logger.prepares(level, t, data)
    }

    /// The data is kept, the oldest kept message dropped when the buffer is
    /// full; the inner logger is not touched.
    closed spec fn logs_data(&self, data: T::LogData, next: &Self) -> bool {
        &&& next.logger == self.logger
        &&& next.max_amount == self.max_amount
        &&& next.logs@ == (if self.logs@.len() == self.max_amount && self.logs@.len() > 0 {
            self.logs@.drop_first()
        } else {
            self.logs@
        }).push(data)
    }

    /// Prepares the message as the inner logger does.
    fn prepare<F: Fn() -> String>(&self, level: LogLevel, message: &F) -> (r: Self::LogData)
        ensures
            forall|t: Seq<char>| makes_only(message, t) ==> #[trigger] self.inner().prepares(level, t, r),
    {
        self.logger.prepare(level, message)
    }

    /// Keeps the data, dropping the oldest kept message when the buffer is
    /// full. (The buffer is never empty and full at once: it keeps at least
    /// one message.)
    fn logln_data(&mut self, data: Self::LogData)
        ensures
            final(self).kept() == (if old(self).kept().len() == old(self).max_amount()
                && old(self).kept().len() > 0 {
                old(self).kept().drop_first()
            } else {
                old(self).kept()
            }).push(data),
            final(self).inner() == old(self).inner(),
            final(self).max_amount() == old(self).max_amount(),
            0 < old(self).max_amount() && old(self).kept().len() <= old(self).max_amount()
                ==> final(self).kept().len() <= final(self).max_amount(),
    {
        if self.logs.len() == self.max_amount {
            self.logs.pop_front();
        }
        self.logs.push_back(data);
    }
}

} // verus!
