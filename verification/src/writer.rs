//! The file writer: the magic header, value accumulation through the data
//! tree, stripe flushes bounded by a configurable target size, and the file
//! footer and postscript that close the container.

use vstd::prelude::*;
use crate::compression::{CompressionStream, CountWrite};
use crate::data::{
    data_cid, data_count, data_counts_ok, data_est, data_fits, data_flushed, data_live,
    data_num_present,
    data_num_values, data_stats_seq, data_stream_bytes, data_stream_infos, data_wf, data_zeroed,
    lemma_same_kind_fits, lemma_stats_seq_len, Data,
};
use crate::proto::{
    footer_pb, lemma_uvarint_len, postscript_pb, stat_pb, stats_list_pb, stripe_footer_pb,
    stripes_pb, write_pb_bytes, write_pb_varint, write_stat, write_stripe_footer,
    write_stripe_info, write_types,
};
use crate::schema::{schema_columns, Schema};
use crate::statistics::{stats_merge_spec, Statistics};
use crate::stripe::{StreamInfo, StripeInfo};

verus! {

/// Writer configuration, read-only for the writer's lifetime.  This core
/// writes with compression kind NONE: blocks pass through unframed.
#[derive(Clone, Copy)]
pub struct Config {
    pub compression_block_size: u64,
    pub stripe_target_size: usize,
    pub row_index_stride: u32,
    pub writer_version: u32,
}

impl Config {
    /// The default configuration: 64 KiB blocks, 64 MiB stripe target,
    /// row-index stride 10 000.
    pub fn new() -> (r: Config)
        ensures
            r.compression_block_size == 65536,
            r.stripe_target_size == 67108864,
            r.row_index_stride == 10000,
            r.writer_version == 1,
    {
        Config {
            compression_block_size: 65536,
            stripe_target_size: 67108864,
            row_index_stride: 10000,
            writer_version: 1,
        }
    }

    /// The same configuration with another stripe target size.
    pub fn with_stripe_target_size(self, n: usize) -> (r: Config)
        ensures
            r.stripe_target_size == n,
            r.compression_block_size == self.compression_block_size,
            r.row_index_stride == self.row_index_stride,
            r.writer_version == self.writer_version,
    {
        Config { stripe_target_size: n, ..self }
    }
}

impl Default for Config {
    /// The default configuration, as `Config::new`.
    fn default() -> (r: Config)
        ensures
            r.compression_block_size == 65536,
            r.stripe_target_size == 67108864,
            r.row_index_stride == 10000,
            r.writer_version == 1,
    {
        Config::new()
    }
}

/// The sum of the stripes' row counts.
pub open spec fn spec_sum_rows(ss: Seq<StripeInfo>) -> int
    decreases ss.len(),
{
    if ss.len() == 0 {
        0
    } else {
        spec_sum_rows(ss.drop_last()) + ss.last().num_rows
    }
}

/// File-level statistics after merging one stripe's, column by column.
pub open spec fn merged_stats(a: Seq<Statistics>, b: Seq<Statistics>) -> Seq<Statistics> {
    Seq::new(a.len(), |i: int| stats_merge_spec(a[i], b[i]))
}

/// The bytes one stripe flush appends: the columns' streams in preorder,
/// then the stripe footer message.
pub open spec fn stripe_flush_bytes<'a>(d: Data<'a>, ncols: nat) -> Seq<u8> {
    data_stream_bytes(d) + stripe_footer_pb(data_stream_infos(d), ncols)
}

/// The stripe descriptor one flush records.
pub open spec fn stripe_flush_info<'a>(d: Data<'a>, ncols: nat, offset: nat, rows: u64) -> StripeInfo {
    StripeInfo {
        offset: offset as u64,
        index_length: 0,
        data_length: data_stream_bytes(d).len() as u64,
        footer_length: stripe_footer_pb(data_stream_infos(d), ncols).len() as u64,
        num_rows: rows,
    }
}

/// ORC file writer over an in-memory sink.
pub struct Writer<'a> {
    schema: &'a Schema,
    config: Config,
    sink: CountWrite,
    data: Data<'a>,
    stripes: Vec<StripeInfo>,
    file_stats: Vec<Statistics>,
    total_rows: u64,
    stripe_rows: u64,
    num_columns: u32,
}

/// The sink, stripe list and file statistics after closing the open stripe,
/// which is flushed exactly when it holds rows.
pub open spec fn closed_state<'a>(w: Writer<'a>) -> (Seq<u8>, Seq<StripeInfo>, Seq<
    Statistics,
>) {
    if w.spec_stripe_rows() > 0 {
        (
            w.spec_sink() + stripe_flush_bytes(w.spec_data(), w.spec_num_columns() as nat),
            w.spec_stripes().push(
                stripe_flush_info(
                    w.spec_data(),
                    w.spec_num_columns() as nat,
                    w.spec_sink().len(),
                    w.spec_stripe_rows(),
                ),
            ),
            merged_stats(w.spec_file_stats(), data_stats_seq(w.spec_data())),
        )
    } else {
        (w.spec_sink(), w.spec_stripes(), w.spec_file_stats())
    }
}

/// The complete file `finish` returns: the body (magic, stripes and their
/// footers), the file footer, the postscript, and the postscript's length
/// as the final byte.
pub open spec fn file_bytes<'a>(w: Writer<'a>) -> Seq<u8> {
    let body = closed_state(w).0;
    let footer = footer_pb(
        w.spec_schema(),
        closed_state(w).1,
        w.spec_total_rows(),
        closed_state(w).2,
        w.spec_config().row_index_stride,
        body.len(),
    );
    let ps = postscript_pb(
        footer.len(),
        w.spec_config().compression_block_size,
        w.spec_config().writer_version,
    );
    body + footer + ps + seq![ps.len() as u8]
}

impl<'a> Writer<'a> {
    /// The schema written.
    pub closed spec fn spec_schema(&self) -> Schema {
        *self.schema
    }

    /// The configuration.
    pub closed spec fn spec_config(&self) -> Config {
        self.config
    }

    /// The bytes written so far.
    pub closed spec fn spec_sink(&self) -> Seq<u8> {
        self.sink@
    }

    /// The data tree.
    pub closed spec fn spec_data(&self) -> Data<'a> {
        self.data
    }

    /// The completed stripes.
    pub closed spec fn spec_stripes(&self) -> Seq<StripeInfo> {
        self.stripes@
    }

    /// The merged file-level statistics, one entry per column.
    pub closed spec fn spec_file_stats(&self) -> Seq<Statistics> {
        self.file_stats@
    }

    /// Rows committed over the file's lifetime.
    pub closed spec fn spec_total_rows(&self) -> u64 {
        self.total_rows
    }

    /// Rows committed to the open stripe.
    pub closed spec fn spec_stripe_rows(&self) -> u64 {
        self.stripe_rows
    }

    /// The column count of the schema.
    pub closed spec fn spec_num_columns(&self) -> u32 {
        self.num_columns
    }

    /// Writer invariant: the tree is well-formed with preorder ids from 0,
    /// the sink starts with the magic, and the committed row total is the
    /// sum of the closed stripes' rows plus the open stripe's.
    pub closed spec fn wf(&self) -> bool {
        &&& data_wf(self.data)
        &&& data_fits(self.data, *self.schema)
        &&& data_cid(self.data) == 0
        &&& data_count(self.data) == schema_columns(*self.schema)
        &&& self.num_columns == data_count(self.data)
        &&& self.file_stats@.len() == self.num_columns
        &&& self.total_rows == spec_sum_rows(self.stripes@) + self.stripe_rows
        &&& self.sink@.len() >= 3
        &&& self.sink@.take(3) == seq![79u8, 82u8, 67u8]
    }

    /// Opens a writer: writes the three-byte magic and builds the empty
    /// data tree with preorder column ids.
    pub fn new(schema: &'a Schema, config: Config) -> (r: Writer<'a>)
        requires
            schema_columns(*schema) <= u32::MAX,
        ensures
            r.wf(),
            data_live(r.spec_data()),
            data_flushed(r.spec_data()),
            data_counts_ok(r.spec_data(), 0),
            data_zeroed(r.spec_data()),
            data_num_values(r.spec_data()) == 0,
            data_num_present(r.spec_data()) == 0,
            r.spec_schema() == *schema,
            r.spec_config() == config,
            r.spec_sink() == seq![79u8, 82u8, 67u8],
            r.spec_stripes() == Seq::<StripeInfo>::empty(),
            r.spec_total_rows() == 0,
            r.spec_stripe_rows() == 0,
    {
        let mut sink = CountWrite::new();
        sink.write_u8(79);
        sink.write_u8(82);
        sink.write_u8(67);
        let mut cid: u32 = 0;
        let data = Data::new(schema, &mut cid);
        let ncols: u32 = cid;
        let mut file_stats: Vec<Statistics> = Vec::new();
        data.statistics(&mut file_stats);
        proof {
            lemma_stats_seq_len(data);
        }
        let r = Writer {
            schema,
            config,
            sink,
            data,
            stripes: Vec::new(),
            file_stats,
            total_rows: 0,
            stripe_rows: 0,
            num_columns: ncols,
        };
        proof {
            assert(r.sink@.take(3) =~= seq![79u8, 82u8, 67u8]);
            assert(r.stripes@ =~= Seq::<StripeInfo>::empty());
        }
        r
    }

    /// The tree-shaped handle the caller writes values through, valid until
    /// the next `write_batch` or `finish`.
    pub fn data(&mut self) -> (r: &mut Data<'a>)
        ensures
            *r == old(self).spec_data(),
            final(self).spec_data() == *final(r),
            final(self).spec_schema() == old(self).spec_schema(),
            final(self).spec_config() == old(self).spec_config(),
            final(self).spec_sink() == old(self).spec_sink(),
            final(self).spec_stripes() == old(self).spec_stripes(),
            final(self).spec_file_stats() == old(self).spec_file_stats(),
            final(self).spec_total_rows() == old(self).spec_total_rows(),
            final(self).spec_stripe_rows() == old(self).spec_stripe_rows(),
            final(self).spec_num_columns() == old(self).spec_num_columns(),
            old(self).wf() ==> data_wf(*r) && data_fits(*r, old(self).spec_schema()) && data_cid(
                *r,
            ) == 0,
    {
        &mut self.data
    }

    /// Rows committed so far.
    pub fn row_count(&self) -> (r: u64)
        ensures
            r == self.spec_total_rows(),
    {
        self.total_rows
    }

    /// Completed stripes so far.
    pub fn stripes(&self) -> (r: &Vec<StripeInfo>)
        ensures
            r@ == self.spec_stripes(),
    {
        &self.stripes
    }

    /// Checks that every column accumulated exactly the row count it owes
    /// for a batch ending at `expected` rows in the open stripe.
    pub fn check_row_counts(&self, expected: u64) -> (r: bool)
        ensures
            r == data_counts_ok(self.spec_data(), expected as int),
    {
        self.data.verify_row_count(expected)
    }

    /// The first column, in preorder, that accumulated a wrong value count
    /// for a batch ending at `expected` rows — `None` exactly when the
    /// counts are consistent.  The id identifies the column for the fatal
    /// usage-error report.
    pub fn first_row_count_mismatch(&self, expected: u64) -> (r: Option<u32>)
        ensures
            r is None <==> data_counts_ok(self.spec_data(), expected as int),
    {
        self.data.first_row_count_mismatch(expected)
    }

    /// Closes the open stripe: emits every column's streams, the stripe
    /// footer, records the stripe, merges its statistics into the file
    /// totals and resets the tree.
    #[verifier::rlimit(60)]
    fn flush_stripe(&mut self)
        requires
            old(self).wf(),
        ensures
            final(self).wf(),
            data_live(final(self).spec_data()),
            data_counts_ok(final(self).spec_data(), 0),
            data_zeroed(final(self).spec_data()),
            data_num_values(final(self).spec_data()) == 0,
            data_num_present(final(self).spec_data()) == 0,
            data_est(final(self).spec_data()) == 0,
            final(self).spec_schema() == old(self).spec_schema(),
            final(self).spec_config() == old(self).spec_config(),
            final(self).spec_num_columns() == old(self).spec_num_columns(),
            final(self).spec_total_rows() == old(self).spec_total_rows(),
            final(self).spec_stripe_rows() == 0,
            final(self).spec_sink() == old(self).spec_sink() + stripe_flush_bytes(
                old(self).spec_data(),
                old(self).spec_num_columns() as nat,
            ),
            final(self).spec_stripes() == old(self).spec_stripes().push(
                stripe_flush_info(
                    old(self).spec_data(),
                    old(self).spec_num_columns() as nat,
                    old(self).spec_sink().len(),
                    old(self).spec_stripe_rows(),
                ),
            ),
            final(self).spec_file_stats() == merged_stats(
                old(self).spec_file_stats(),
                data_stats_seq(old(self).spec_data()),
            ),
    {
        let start: usize = self.sink.len();
        let mut infos: Vec<StreamInfo> = Vec::new();
        self.data.write_data_streams(&mut self.sink, &mut infos);
        let data_len: usize = self.sink.len() - start;
        let mut stats: Vec<Statistics> = Vec::new();
        self.data.statistics(&mut stats);
        proof {
            lemma_stats_seq_len(self.data);
            assert(stats@ =~= data_stats_seq(old(self).spec_data()));
        }
        let ghost dflushed = self.data;
        let ghost infos0 = infos@;
        let n: usize = self.file_stats.len();
        let mut i: usize = 0;
        while i < n
            invariant
                i <= n,
                n == self.file_stats@.len(),
                stats@ == data_stats_seq(old(self).spec_data()),
                stats@.len() == n,
                forall|j: int|
                    0 <= j < i ==> self.file_stats@[j] == merged_stats(
                        old(self).spec_file_stats(),
                        stats@,
                    )[j],
                forall|j: int| i <= j < n ==> self.file_stats@[j] == old(self).spec_file_stats()[j],
                self.sink@ == old(self).spec_sink() + data_stream_bytes(old(self).spec_data()),
                self.stripes@ == old(self).spec_stripes(),
                self.total_rows == old(self).spec_total_rows(),
                self.stripe_rows == old(self).spec_stripe_rows(),
                self.num_columns == old(self).spec_num_columns(),
                self.data == dflushed,
                self.schema == old(self).schema,
                self.config == old(self).config,
                infos@ == infos0,
                old(self).spec_file_stats().len() == n,
            decreases n - i,
        {
            let mut cur: Statistics = self.file_stats[i];
            cur.merge(&stats[i]);
            self.file_stats.set(i, cur);
            proof {
                let ms = merged_stats(old(self).spec_file_stats(), stats@);
                assert(ms.len() == n);
                assert(ms[i as int] == stats_merge_spec(
                    old(self).spec_file_stats()[i as int],
                    stats@[i as int],
                ));
                assert(self.file_stats@[i as int] == ms[i as int]);
            }
            i = i + 1;
        }
        proof {
            assert(self.file_stats@ =~= merged_stats(
                old(self).spec_file_stats(),
                data_stats_seq(old(self).spec_data()),
            ));
        }
        let mut cs = CompressionStream::new();
        crate::proto::write_stripe_footer(&mut cs, &infos, self.num_columns);
        let flen: usize = cs.buffered_len();
        cs.finish(&mut self.sink);
        let rows: u64 = self.stripe_rows;
        self.stripes.push(
            StripeInfo {
                offset: start as u64,
                index_length: 0,
                data_length: data_len as u64,
                footer_length: flen as u64,
                num_rows: rows,
            },
        );
        self.stripe_rows = 0;
        let ghost dmid = self.data;
        self.data.reset();
        proof {
            lemma_same_kind_fits(old(self).spec_data(), dmid, *old(self).schema);
            lemma_same_kind_fits(dmid, self.data, *old(self).schema);
            assert(self.sink@ =~= old(self).spec_sink() + stripe_flush_bytes(
                old(self).spec_data(),
                old(self).spec_num_columns() as nat,
            ));
            assert(self.stripes@ =~= old(self).spec_stripes().push(
                stripe_flush_info(
                    old(self).spec_data(),
                    old(self).spec_num_columns() as nat,
                    old(self).spec_sink().len(),
                    old(self).spec_stripe_rows(),
                ),
            ));
            assert(self.sink@.take(3) =~= seq![79u8, 82u8, 67u8]);
            assert(self.stripes@.drop_last() =~= old(self).spec_stripes());
            assert(spec_sum_rows(self.stripes@) == spec_sum_rows(old(self).spec_stripes())
                + old(self).spec_stripe_rows());
            assert(self.file_stats@.len() == old(self).spec_file_stats().len());
        }
    }

    /// Commits `rows` rows: every column must have accumulated exactly the
    /// values it owes (see `check_row_counts`).  Flushes the open stripe
    /// when the buffered estimate has reached the configured target size.
    /// After the call, previously obtained handles must not be reused.
    pub fn write_batch(&mut self, rows: u64)
        requires
            old(self).wf(),
            data_live(old(self).spec_data()),
            data_counts_ok(
                old(self).spec_data(),
                old(self).spec_stripe_rows() + rows,
            ),
            old(self).spec_stripe_rows() + rows <= u64::MAX,
            old(self).spec_total_rows() + rows <= u64::MAX,
        ensures
            final(self).wf(),
            data_live(final(self).spec_data()),
            final(self).spec_schema() == old(self).spec_schema(),
            final(self).spec_config() == old(self).spec_config(),
            final(self).spec_num_columns() == old(self).spec_num_columns(),
            final(self).spec_total_rows() == old(self).spec_total_rows() + rows,
            data_est(old(self).spec_data()) >= old(self).spec_config().stripe_target_size ==> {
                &&& final(self).spec_sink() == old(self).spec_sink() + stripe_flush_bytes(
                    old(self).spec_data(),
                    old(self).spec_num_columns() as nat,
                )
                &&& final(self).spec_stripes() == old(self).spec_stripes().push(
                    stripe_flush_info(
                        old(self).spec_data(),
                        old(self).spec_num_columns() as nat,
                        old(self).spec_sink().len(),
                        (old(self).spec_stripe_rows() + rows) as u64,
                    ),
                )
                &&& final(self).spec_file_stats() == merged_stats(
                    old(self).spec_file_stats(),
                    data_stats_seq(old(self).spec_data()),
                )
                &&& final(self).spec_stripe_rows() == 0
                &&& data_counts_ok(final(self).spec_data(), 0)
                &&& data_zeroed(final(self).spec_data())
                &&& data_num_values(final(self).spec_data()) == 0
                &&& data_num_present(final(self).spec_data()) == 0
                &&& data_est(final(self).spec_data()) == 0
            },
            data_est(old(self).spec_data()) < old(self).spec_config().stripe_target_size ==> {
                &&& final(self).spec_sink() == old(self).spec_sink()
                &&& final(self).spec_stripes() == old(self).spec_stripes()
                &&& final(self).spec_data() == old(self).spec_data()
                &&& final(self).spec_file_stats() == old(self).spec_file_stats()
                &&& final(self).spec_stripe_rows() == old(self).spec_stripe_rows() + rows
            },
    {
        self.stripe_rows = self.stripe_rows + rows;
        self.total_rows = self.total_rows + rows;
        let est: usize = self.data.estimated_size();
        if est >= self.config.stripe_target_size {
            self.flush_stripe();
        }
    }

    /// Flushes any open stripe, writes the file footer and the postscript
    /// with its length byte, and hands the complete file over.  The overall
    /// row count the footer carries is the sum of the stripes' row counts.
    #[verifier::loop_isolation(false)]
    #[verifier::rlimit(60)]
    pub fn finish(self) -> (r: Vec<u8>)
        requires
            self.wf(),
            data_counts_ok(self.spec_data(), self.spec_stripe_rows() as int),
        ensures
            r@ == file_bytes(self),
            spec_sum_rows(closed_state(self).1) == self.spec_total_rows(),
            r@.len() > 0,
            1 <= r@.last() <= 255,
    {
        let ghost w0 = self;
        let mut w = self;
        if w.stripe_rows > 0 {
            w.flush_stripe();
        }
        proof {
            assert(w.spec_sink() =~= closed_state(w0).0);
            assert(w.spec_stripes() =~= closed_state(w0).1);
            assert(w.spec_file_stats() =~= closed_state(w0).2);
        }
        let content_len: usize = w.sink.len();
        let mut fcs = CompressionStream::new();
        write_pb_varint(&mut fcs, 1, 3);
        write_pb_varint(&mut fcs, 2, content_len as u64);
        let ghost fbase = fcs@;
        let ns: usize = w.stripes.len();
        let mut i: usize = 0;
        while i < ns
            invariant
                i <= ns,
                fcs@ == fbase + stripes_pb(w.stripes@.take(i as int)),
            decreases ns - i,
        {
            proof {
                assert(w.stripes@.take(i as int + 1).drop_last() =~= w.stripes@.take(i as int));
                assert(w.stripes@.take(i as int + 1).last() == w.stripes@[i as int]);
            }
            write_stripe_info(&mut fcs, &w.stripes[i]);
            proof {
                assert(fcs@ =~= fbase + stripes_pb(w.stripes@.take(i as int + 1)));
            }
            i = i + 1;
        }
        proof {
            assert(w.stripes@.take(ns as int) =~= w.stripes@);
        }
        let mut tid: u32 = 0;
        write_types(&mut fcs, w.schema, &mut tid);
        write_pb_varint(&mut fcs, 6, w.total_rows);
        let ghost sbase = fcs@;
        let nst: usize = w.file_stats.len();
        let mut j: usize = 0;
        while j < nst
            invariant
                j <= nst,
                fcs@ == sbase + stats_list_pb(w.file_stats@.take(j as int)),
            decreases nst - j,
        {
            proof {
                assert(w.file_stats@.take(j as int + 1).drop_last() =~= w.file_stats@.take(
                    j as int,
                ));
                assert(w.file_stats@.take(j as int + 1).last() == w.file_stats@[j as int]);
            }
            write_stat(&mut fcs, &w.file_stats[j]);
            proof {
                assert(fcs@ =~= sbase + stats_list_pb(w.file_stats@.take(j as int + 1)));
            }
            j = j + 1;
        }
        proof {
            assert(w.file_stats@.take(nst as int) =~= w.file_stats@);
        }
        write_pb_varint(&mut fcs, 8, w.config.row_index_stride as u64);
        proof {
            assert(fcs@ =~= footer_pb(
                *w.schema,
                w.stripes@,
                w.total_rows,
                w.file_stats@,
                w.config.row_index_stride,
                content_len as nat,
            ));
        }
        let flen: usize = fcs.buffered_len();
        fcs.finish(&mut w.sink);
        let mut pcs = CompressionStream::new();
        write_pb_varint(&mut pcs, 1, flen as u64);
        write_pb_varint(&mut pcs, 2, 0);
        write_pb_varint(&mut pcs, 3, w.config.compression_block_size);
        let mut vcs = CompressionStream::new();
        vcs.write_uvarint(0);
        vcs.write_uvarint(12);
        let vv = vcs.into_bytes();
        write_pb_bytes(&mut pcs, 4, vv.as_slice());
        write_pb_varint(&mut pcs, 5, 0);
        write_pb_varint(&mut pcs, 6, w.config.writer_version as u64);
        let mut mcs = CompressionStream::new();
        mcs.write_u8(79);
        mcs.write_u8(82);
        mcs.write_u8(67);
        let mv = mcs.into_bytes();
        proof {
            assert(mv@ =~= seq![79u8, 82u8, 67u8]);
        }
        write_pb_bytes(&mut pcs, 8000, mv.as_slice());
        proof {
            assert(pcs@ =~= postscript_pb(
                flen as nat,
                w.config.compression_block_size,
                w.config.writer_version,
            ));
            crate::proto::lemma_postscript_len(
                flen as nat,
                w.config.compression_block_size,
                w.config.writer_version,
            );
            assert(pcs@.len() <= 255);
        }
        let pslen: usize = pcs.buffered_len();
        pcs.finish(&mut w.sink);
        w.sink.write_u8(pslen as u8);
        proof {
            assert(w.sink@ =~= file_bytes(w0));
        }
        w.sink.into_bytes()
    }
}

} // verus!
